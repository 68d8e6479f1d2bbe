use std::sync::Arc;

use libp2p_behaviours::kad::behaviour::Behaviour;
use libp2p_behaviours::kad::behaviour::Request;
use libp2p_behaviours::kad::bootstrap::Signal;
use libp2p_behaviours::kad::config::BucketInserts;
use libp2p_behaviours::kad::config::Caching;
use libp2p_behaviours::kad::config::Config;
use libp2p_behaviours::kad::config::StoreInserts;
use libp2p_behaviours::kad::events::AddProviderContext;
use libp2p_behaviours::kad::events::AddProviderError;
use libp2p_behaviours::kad::events::BootstrapError;
use libp2p_behaviours::kad::events::Event;
use libp2p_behaviours::kad::events::GetClosestPeersError;
use libp2p_behaviours::kad::events::GetProvidersError;
use libp2p_behaviours::kad::events::GetProvidersOk;
use libp2p_behaviours::kad::events::GetRecordError;
use libp2p_behaviours::kad::events::GetRecordOk;
use libp2p_behaviours::kad::events::InboundRequest;
use libp2p_behaviours::kad::events::NoKnownPeers;
use libp2p_behaviours::kad::events::ProgressStep;
use libp2p_behaviours::kad::events::PutRecordContext;
use libp2p_behaviours::kad::events::PutRecordError;
use libp2p_behaviours::kad::events::QueryInfo;
use libp2p_behaviours::kad::events::QueryResult;
use libp2p_behaviours::kad::events::QueryStats;
use libp2p_behaviours::kad::events::Quorum;
use libp2p_behaviours::kad::events::RoutingUpdate;
use libp2p_behaviours::kad::finish::falls_into;
use libp2p_behaviours::kad::finish::pick_target;
use libp2p_behaviours::kad::finish::pick_targets;
use libp2p_behaviours::kad::inbound::exp_decrease;
use libp2p_behaviours::kad::key::bucket_range;
use libp2p_behaviours::kad::key::Distance;
use libp2p_behaviours::kad::key::KeyBytes;
use libp2p_behaviours::kad::kbucket::NodeStatus;
use libp2p_behaviours::kad::poll::PollInput;
use libp2p_behaviours::kad::poll::PollOutput;
use libp2p_behaviours::kad::protocol::ConnectionType;
use libp2p_behaviours::kad::protocol::HandlerEvent;
use libp2p_behaviours::kad::protocol::HandlerIn;
use libp2p_behaviours::kad::protocol::KadPeer;
use libp2p_behaviours::kad::protocol::Mode;
use libp2p_behaviours::kad::protocol::QueryId;
use libp2p_behaviours::kad::protocol::RequestError;
use libp2p_behaviours::kad::protocol::RequestId;
use libp2p_behaviours::kad::query::LookupStep;
use libp2p_behaviours::kad::record::Key;
use libp2p_behaviours::kad::record::ProviderRecord;
use libp2p_behaviours::kad::record::Record;
use libp2p_behaviours::kad::record::RecordStore;
use libp2p_behaviours::kad::record::StoreError;
use libp2p_behaviours::nonzero::NonZeroUsize;
use libp2p_behaviours::swarm::ConnectedPoint;
use libp2p_behaviours::swarm::DialError;
use libp2p_behaviours::swarm::Endpoint;
use libp2p_behaviours::swarm::FromSwarm;
use libp2p_behaviours::swarm::NotifyHandler;
use libp2p_behaviours::swarm::PeerCondition;
use libp2p_behaviours::swarm::PortUse;
use libp2p_behaviours::swarm::ToSwarm;
use libp2p_behaviours::text::to_comma_separated_list;
use libp2p_behaviours::time::Duration;
use libp2p_behaviours::time::Moment;
use libp2p_core::multiaddr::Protocol;
use libp2p_core::transport::ListenerId;
use libp2p_core::Multiaddr;
use libp2p_identity::PeerId;
use libp2p_swarm::ConnectionId;
use libp2p_swarm::StreamProtocol;

////////////////////////////////////////////////////////////////////////////////
// Helpers

/// A store that keeps everything in memory, and fails if it is told to.
#[derive(Default)]
struct MemoryStore {
    records: Vec<Record>,
    providers: Vec<ProviderRecord>,
    error: Option<StoreError>,
}

fn copy_of(p: &ProviderRecord) -> ProviderRecord {
    ProviderRecord {
        key: p.key.clone(),
        provider: p.provider,
        expires: p.expires,
        addresses: p.addresses.clone(),
    }
}

impl RecordStore for MemoryStore {
    fn get(&self, key: &Key) -> Option<Record> {
        self.records.iter().find(|r| r.key.equals(key)).cloned()
    }

    fn put(&mut self, record: Record) -> Result<(), StoreError> {
        match self.error {
            Some(e) => Err(e),
            None => {
                self.remove(&record.key.clone());
                self.records.push(record);
                Ok(())
            }
        }
    }

    fn remove(&mut self, key: &Key) {
        self.records.retain(|r| !r.key.equals(key));
    }

    fn add_provider(&mut self, record: ProviderRecord) -> Result<(), StoreError> {
        match self.error {
            Some(e) => Err(e),
            None => {
                self.providers.push(record);
                Ok(())
            }
        }
    }

    fn providers(&self, key: &Key) -> Vec<ProviderRecord> {
        self.providers.iter().filter(|p| p.key.equals(key)).map(copy_of).collect()
    }

    fn remove_provider(&mut self, key: &Key, provider: &PeerId) {
        self.providers.retain(|p| !(p.key.equals(key) && p.provider == *provider));
    }
}

type Kademlia = Behaviour<MemoryStore>;

fn kademlia() -> Kademlia {
    Behaviour::new(PeerId::random(), MemoryStore::default())
}

fn configured(config: Config) -> Kademlia {
    Behaviour::with_config(PeerId::random(), MemoryStore::default(), config)
}

fn nonzero(n: usize) -> NonZeroUsize {
    NonZeroUsize::new(n).unwrap()
}

fn at(secs: u128) -> Moment {
    Moment { nanos: secs * 1_000_000_000 }
}

fn addr(n: u64) -> Multiaddr {
    Multiaddr::empty().with(Protocol::Memory(n))
}

fn full_addr(n: u64, peer: PeerId) -> Multiaddr {
    addr(n).with(Protocol::P2p(peer))
}

fn connection(n: usize) -> ConnectionId {
    ConnectionId::new_unchecked(n)
}

fn key(name: &str) -> Key {
    Key::new(name.as_bytes().to_vec())
}

fn record(name: &str, value: u8) -> Record {
    Record { key: key(name), value: Arc::new(vec![value]), publisher: None, expires: None }
}

fn kad_peer(peer: PeerId, n: u64) -> KadPeer {
    KadPeer {
        node_id: peer,
        multiaddrs: vec![addr(n)],
        connection_ty: ConnectionType::NotConnected,
    }
}

fn distance_to(peer: &PeerId, target: &KeyBytes) -> Distance {
    KeyBytes::from_peer(peer).distance(target)
}

/// Peers that fall into the bucket that is farthest away.
fn far_peers(kad: &Kademlia, n: usize) -> Vec<PeerId> {
    let local = KeyBytes::from_peer(&kad.local_peer_id);
    let mut peers = Vec::new();
    while peers.len() < n {
        let peer = PeerId::random();
        if falls_into(&local, &peer, 255) {
            peers.push(peer);
        }
    }
    peers
}

fn add_peers(kad: &mut Kademlia, n: u64) -> Vec<PeerId> {
    let mut peers = Vec::new();
    for i in 0..n {
        let peer = PeerId::random();
        if kad.add_address_at(&peer, addr(i), at(0)) == RoutingUpdate::Success {
            peers.push(peer);
        }
    }
    kad.queued_events.clear();
    peers
}

fn connect(kad: &mut Kademlia, peer: PeerId) {
    kad.on_swarm_event(FromSwarm::ConnectionEstablished {
        peer_id: peer,
        failed_addresses: vec![],
        other_established: 0,
    });
}

fn dialer(n: u64) -> ConnectedPoint {
    ConnectedPoint::Dialer {
        address: addr(n),
        role_override: Endpoint::Dialer,
        port_use: PortUse::Reuse,
    }
}

fn listener(n: u64) -> ConnectedPoint {
    ConnectedPoint::Listener { local_addr: addr(0), send_back_addr: addr(n) }
}

fn confirm(kad: &mut Kademlia, peer: PeerId, endpoint: ConnectedPoint, now: Moment) {
    kad.on_connection_handler_event_at(
        peer,
        connection(1),
        HandlerEvent::ProtocolConfirmed { endpoint },
        now,
    );
}

fn report(kad: &mut Kademlia, peer: PeerId, event: HandlerEvent) {
    kad.on_connection_handler_event_at(peer, connection(1), event, at(0));
}

fn decide(kad: &mut Kademlia, step: LookupStep, now: Moment) -> PollOutput {
    kad.poll_at(PollInput::Lookup(step), now)
}

fn contact(kad: &mut Kademlia, id: QueryId, peer: PeerId) {
    let output = decide(kad, LookupStep::Contact { id, peer }, at(0));
    assert!(matches!(output, PollOutput::AskLookups));
}

fn finish(kad: &mut Kademlia, id: QueryId) -> PollOutput {
    decide(kad, LookupStep::Finished { id }, at(1))
}

fn next_event(kad: &mut Kademlia) -> Event {
    match kad.queued_events.pop_front() {
        Some(ToSwarm::GenerateEvent(event)) => event,
        other => panic!("expected an event, got {:?}", other),
    }
}

fn next_command(kad: &mut Kademlia) -> (PeerId, HandlerIn) {
    match kad.queued_events.pop_front() {
        Some(ToSwarm::NotifyHandler { peer_id, event, .. }) => (peer_id, event),
        other => panic!("expected a command, got {:?}", other),
    }
}

fn dialed(request: Option<Request>) -> PeerId {
    match request {
        Some(ToSwarm::Dial { opts }) => opts.get_peer_id().unwrap(),
        other => panic!("expected a dial, got {:?}", other),
    }
}

fn progress(output: PollOutput) -> (QueryId, QueryResult, QueryStats, ProgressStep) {
    match output {
        PollOutput::Ready(ToSwarm::GenerateEvent(event)) => progressed(event),
        other => panic!("expected a report, got {:?}", other),
    }
}

fn progressed(event: Event) -> (QueryId, QueryResult, QueryStats, ProgressStep) {
    match event {
        Event::OutboundQueryProgressed { id, result, stats, step } => (id, result, stats, step),
        other => panic!("expected a report, got {:?}", other),
    }
}

////////////////////////////////////////////////////////////////////////////////
// Keys and configuration

#[test]
fn keys_are_hashes() {
    let empty = KeyBytes::new(&vec![]);
    assert_eq!(empty.hi, 0xe3b0c44298fc1c149afbf4c8996fb924);
    assert_eq!(empty.lo, 0x27ae41e4649b934ca495991b7852b855);
    let peer = PeerId::random();
    assert_eq!(KeyBytes::from_peer(&peer), KeyBytes::new(&peer.to_bytes()));
}

#[test]
fn distance_is_a_metric() {
    let a = KeyBytes { hi: 0b1100, lo: 7 };
    let b = KeyBytes { hi: 0b1010, lo: 5 };
    let d = a.distance(&b);
    assert_eq!(d, Distance { hi: 0b0110, lo: 2 });
    assert_eq!(b.distance(&a), d);
    assert_eq!(a.distance(&a), Distance { hi: 0, lo: 0 });
    assert_eq!(d.ilog2(), Some(130));
    assert_eq!(Distance { hi: 0, lo: 9 }.ilog2(), Some(3));
    assert_eq!(Distance { hi: 0, lo: 0 }.ilog2(), None);
    assert!(Distance { hi: 0, lo: 9 }.is_lt(&d));
    assert!(d.is_le(&d));
}

#[test]
fn bucket_ranges() {
    assert_eq!(bucket_range(0), (Distance { hi: 0, lo: 1 }, Distance { hi: 0, lo: 1 }));
    assert_eq!(bucket_range(3), (Distance { hi: 0, lo: 8 }, Distance { hi: 0, lo: 15 }));
    assert_eq!(
        bucket_range(255),
        (Distance { hi: 1 << 127, lo: 0 }, Distance { hi: u128::MAX, lo: u128::MAX })
    );
}

#[test]
fn default_configuration() {
    let config = Config::default();
    let hours = |n: u64| Some(Duration::from_secs(n * 60 * 60));
    assert_eq!(config.record_ttl, hours(36));
    assert_eq!(config.record_replication_interval, hours(1));
    assert_eq!(config.record_publication_interval, hours(24));
    assert_eq!(config.provider_record_ttl, hours(48));
    assert_eq!(config.provider_publication_interval, hours(12));
    assert_eq!(config.record_filtering, StoreInserts::Unfiltered);
    assert_eq!(config.kbucket_inserts, BucketInserts::OnConnected);
    assert!(matches!(config.caching, Caching::Enabled { max_peers: 1 }));
    assert_eq!(config.periodic_bootstrap_interval, Some(Duration::from_secs(300)));
    assert_eq!(config.automatic_bootstrap_throttle, Some(Duration::from_millis(500)));
    assert_eq!(config.query_config.timeout, Duration::from_secs(60));
    assert_eq!(config.query_config.replication_factor.get(), 20);
    assert_eq!(config.query_config.parallelism.get(), 3);
    assert!(!config.query_config.disjoint_query_paths);
    assert_eq!(config.kbucket_config.bucket_size.get(), 20);
    assert_eq!(config.kbucket_config.pending_timeout, Duration::from_secs(60));
    assert_eq!(config.protocol_config.max_packet_size, 16 * 1024);
    assert_eq!(
        config.protocol_config.protocol_names,
        vec![StreamProtocol::new("/ipfs/kad/1.0.0")]
    );
}

#[test]
fn configuration_can_be_changed() {
    let mut config = Config::new(StreamProtocol::new("/own/kad"));
    let second = Duration::from_secs(1);
    config
        .set_query_timeout(second)
        .set_replication_factor(nonzero(2))
        .set_parallelism(nonzero(4))
        .disjoint_query_paths(true)
        .set_record_ttl(None)
        .set_record_filtering(StoreInserts::FilterBoth)
        .set_replication_interval(None)
        .set_publication_interval(Some(second))
        .set_provider_record_ttl(None)
        .set_provider_publication_interval(None)
        .set_max_packet_size(9)
        .set_kbucket_inserts(BucketInserts::Manual)
        .set_caching(Caching::Disabled)
        .set_periodic_bootstrap_interval(None)
        .set_kbucket_size(nonzero(5))
        .set_kbucket_pending_timeout(second)
        .set_automatic_bootstrap_throttle(None);
    assert_eq!(config.query_config.timeout, second);
    assert_eq!(config.query_config.replication_factor.get(), 2);
    assert_eq!(config.query_config.parallelism.get(), 4);
    assert!(config.query_config.disjoint_query_paths);
    assert!(config.record_ttl.is_none());
    assert!(config.provider_record_ttl.is_none());
    assert_eq!(config.protocol_config.max_packet_size, 9);
    assert_eq!(config.kbucket_config.bucket_size.get(), 5);
    assert_eq!(config.kbucket_config.pending_timeout, second);
    assert!(config.automatic_bootstrap_throttle.is_none());
    assert!(config.periodic_bootstrap_interval.is_none());

    let kad = configured(config);
    assert_eq!(kad.protocol_names(), &vec![StreamProtocol::new("/own/kad")]);
    assert_eq!(kad.put_record_job.as_ref().unwrap().interval, second);
    assert!(kad.add_provider_job.is_none());
    assert_eq!(kad.record_filtering, StoreInserts::FilterBoth);
    assert_eq!(kad.kbucket_inserts, BucketInserts::Manual);
    assert!(matches!(kad.caching, Caching::Disabled));
}

#[test]
fn no_job_without_an_interval() {
    let mut config = Config::default();
    config.set_replication_interval(None).set_publication_interval(None);
    assert!(configured(config).put_record_job.is_none());
    let kad = kademlia();
    let job = kad.put_record_job.as_ref().unwrap();
    assert_eq!(job.interval, Duration::from_secs(3600));
    assert_eq!(job.publish_interval, Some(Duration::from_secs(24 * 3600)));
    assert_eq!(job.local_id, kad.local_peer_id);
}

#[test]
fn quorums() {
    let five = nonzero(5);
    assert_eq!(Quorum::One.eval(five).get(), 1);
    assert_eq!(Quorum::Majority.eval(five).get(), 3);
    assert_eq!(Quorum::Majority.eval(nonzero(4)).get(), 3);
    assert_eq!(Quorum::Majority.eval(nonzero(1)).get(), 1);
    assert_eq!(Quorum::All.eval(five).get(), 5);
    assert_eq!(Quorum::N(nonzero(2)).eval(five).get(), 2);
    assert_eq!(Quorum::N(nonzero(9)).eval(five).get(), 5);
    assert!(NonZeroUsize::new(0).is_none());
}

#[test]
fn steps_count_from_one() {
    let first = ProgressStep::first();
    assert_eq!((first.count.get(), first.last), (1, false));
    let next = first.next();
    assert_eq!((next.count.get(), next.last), (2, false));
    let only = ProgressStep::first_and_last();
    assert_eq!((only.count.get(), only.last), (1, true));
}

#[test]
fn stats_are_merged() {
    let a = QueryStats {
        requests: 3,
        success: 2,
        failure: 1,
        start: Some(at(5)),
        end: Some(at(6)),
    };
    let b = QueryStats { requests: 1, success: 1, failure: 0, start: None, end: Some(at(9)) };
    let c = a.merge(b);
    assert_eq!((c.requests, c.success, c.failure), (4, 3, 1));
    assert_eq!(c.end, Some(at(9)));
    let empty = QueryStats::empty();
    assert_eq!((empty.requests, empty.success, empty.failure), (0, 0, 0));
}

////////////////////////////////////////////////////////////////////////////////
// The routing table

#[test]
fn added_address_is_dialed() {
    let mut kad = kademlia();
    let peer = PeerId::random();
    assert_eq!(kad.add_address(&peer, addr(1)), RoutingUpdate::Success);
    assert_eq!(kad.handle_pending_outbound_connection(Some(peer)), vec![full_addr(1, peer)]);
    assert!(kad.handle_pending_outbound_connection(None).is_empty());
    assert!(kad.handle_pending_outbound_connection(Some(PeerId::random())).is_empty());
    match next_event(&mut kad) {
        Event::RoutingUpdated { peer: p, is_new_peer, addresses, bucket_range: range, old_peer } => {
            assert_eq!(p, peer);
            assert!(is_new_peer);
            assert_eq!(addresses.addrs, vec![full_addr(1, peer)]);
            assert!(old_peer.is_none());
            let d = distance_to(&peer, &KeyBytes::from_peer(&kad.local_peer_id));
            assert!(range.0.is_le(&d) && d.is_le(&range.1));
        }
        other => panic!("unexpected {:?}", other),
    }
    assert_eq!(kad.bootstrap_status.signals, vec![Signal::Trigger]);
}

#[test]
fn further_addresses_are_told_once() {
    let mut kad = kademlia();
    let peer = PeerId::random();
    kad.add_address(&peer, addr(1));
    kad.queued_events.clear();
    assert_eq!(kad.add_address(&peer, addr(1)), RoutingUpdate::Success);
    assert!(kad.queued_events.is_empty());
    assert_eq!(kad.add_address(&peer, full_addr(2, peer)), RoutingUpdate::Success);
    match next_event(&mut kad) {
        Event::RoutingUpdated { is_new_peer, addresses, .. } => {
            assert!(!is_new_peer);
            assert_eq!(addresses.addrs, vec![full_addr(1, peer), full_addr(2, peer)]);
        }
        other => panic!("unexpected {:?}", other),
    }
}

#[test]
fn invalid_addresses_are_refused() {
    let mut kad = kademlia();
    let peer = PeerId::random();
    assert_eq!(kad.add_address(&peer, full_addr(1, PeerId::random())), RoutingUpdate::Failed);
    let me = kad.local_peer_id;
    assert_eq!(kad.add_address(&me, addr(1)), RoutingUpdate::Failed);
    assert!(kad.queued_events.is_empty());
    assert!(kad.kbuckets().is_empty());
}

#[test]
fn removing_the_last_address_removes_the_peer() {
    let mut kad = kademlia();
    let peer = PeerId::random();
    kad.add_address(&peer, addr(1));
    kad.add_address(&peer, addr(2));
    assert!(kad.remove_address(&peer, &addr(9)).is_none());
    assert!(kad.remove_address(&PeerId::random(), &addr(1)).is_none());
    assert!(kad.remove_address(&peer, &full_addr(1, PeerId::random())).is_none());
    assert!(kad.remove_address(&peer, &addr(1)).is_none());
    assert_eq!(kad.handle_pending_outbound_connection(Some(peer)), vec![full_addr(2, peer)]);
    let entry = kad.remove_address(&peer, &addr(2)).unwrap();
    assert_eq!(entry.peer, peer);
    assert_eq!(entry.addresses.addrs, vec![full_addr(2, peer)]);
    assert_eq!(entry.status, NodeStatus::Disconnected);
    assert!(kad.kbuckets().is_empty());
}

#[test]
fn removed_peer_is_gone() {
    let mut kad = kademlia();
    let peer = PeerId::random();
    assert!(kad.remove_peer(&peer).is_none());
    kad.add_address(&peer, addr(1));
    assert_eq!(kad.remove_peer(&peer).unwrap().peer, peer);
    assert!(kad.remove_peer(&peer).is_none());
}

#[test]
fn a_full_bucket_replaces_only_disconnected_peers() {
    let mut config = Config::default();
    config.set_kbucket_size(nonzero(1));
    let mut kad = configured(config);
    let peers = far_peers(&kad, 4);
    assert_eq!(kad.add_address_at(&peers[0], addr(0), at(0)), RoutingUpdate::Success);
    kad.queued_events.clear();

    // A disconnected peer does not displace another one.
    assert_eq!(kad.add_address_at(&peers[1], addr(1), at(0)), RoutingUpdate::Failed);

    // A connected one waits for its place, while the other one is dialed.
    connect(&mut kad, peers[2]);
    assert_eq!(kad.add_address_at(&peers[2], addr(2), at(0)), RoutingUpdate::Pending);
    assert_eq!(dialed(kad.queued_events.pop_front()), peers[0]);
    assert_eq!(kad.add_address_at(&peers[2], addr(3), at(0)), RoutingUpdate::Pending);
    connect(&mut kad, peers[3]);
    assert_eq!(kad.add_address_at(&peers[3], addr(4), at(0)), RoutingUpdate::Failed);

    // It gets its place after a while.
    kad.queued_events.clear();
    assert!(matches!(kad.poll_at(PollInput::Begin, at(59)), PollOutput::AskLookups));
    match kad.poll_at(PollInput::Begin, at(60)) {
        PollOutput::Ready(ToSwarm::GenerateEvent(Event::RoutingUpdated {
            peer,
            is_new_peer,
            addresses,
            old_peer,
            ..
        })) => {
            assert_eq!(peer, peers[2]);
            assert!(is_new_peer);
            assert_eq!(addresses.addrs, vec![full_addr(2, peer), full_addr(3, peer)]);
            assert_eq!(old_peer, Some(peers[0]));
        }
        other => panic!("unexpected {:?}", other),
    }
    match kad.poll_at(PollInput::Begin, at(60)) {
        PollOutput::Ready(ToSwarm::NewExternalAddrOfPeer { peer_id, address }) => {
            assert_eq!(peer_id, peers[2]);
            assert_eq!(address, full_addr(2, peers[2]));
        }
        other => panic!("unexpected {:?}", other),
    }
    assert!(matches!(kad.poll_at(PollInput::Begin, at(60)), PollOutput::AskLookups));
}

#[test]
fn a_waiting_peer_can_be_removed() {
    let mut config = Config::default();
    config.set_kbucket_size(nonzero(1));
    let mut kad = configured(config);
    let peers = far_peers(&kad, 2);
    kad.add_address_at(&peers[0], addr(0), at(0));
    connect(&mut kad, peers[1]);
    kad.add_address_at(&peers[1], addr(1), at(0));
    let entry = kad.remove_address(&peers[1], &addr(1)).unwrap();
    assert_eq!(entry.peer, peers[1]);
    assert_eq!(entry.status, NodeStatus::Connected);
    assert!(kad.remove_peer(&peers[1]).is_none());
}

#[test]
fn connected_peers_are_inserted() {
    let mut kad = kademlia();
    let peer = PeerId::random();
    connect(&mut kad, peer);
    confirm(&mut kad, peer, listener(1), at(0));
    assert!(matches!(next_event(&mut kad), Event::UnroutablePeer { peer: p } if p == peer));
    confirm(&mut kad, peer, dialer(1), at(0));
    match next_event(&mut kad) {
        Event::RoutingUpdated { peer: p, is_new_peer, addresses, .. } => {
            assert_eq!(p, peer);
            assert!(is_new_peer);
            assert_eq!(addresses.addrs, vec![addr(1)]);
        }
        other => panic!("unexpected {:?}", other),
    }
    confirm(&mut kad, peer, dialer(2), at(0));
    assert!(matches!(next_event(&mut kad), Event::RoutingUpdated { is_new_peer: false, .. }));
    let bucket = kad.kbucket(&peer.to_bytes()).unwrap();
    assert_eq!(bucket.entries.len(), 1);
    assert_eq!(bucket.entries[0].status, NodeStatus::Connected);
    let me = kad.local_peer_id;
    assert!(kad.kbucket(&me.to_bytes()).is_none());
}

#[test]
fn manual_inserts_leave_it_to_the_application() {
    let mut config = Config::default();
    config.set_kbucket_inserts(BucketInserts::Manual);
    let mut kad = configured(config);
    let peer = PeerId::random();
    connect(&mut kad, peer);
    confirm(&mut kad, peer, dialer(1), at(0));
    match next_event(&mut kad) {
        Event::RoutablePeer { peer: p, address } => {
            assert_eq!(p, peer);
            assert_eq!(address, addr(1));
        }
        other => panic!("unexpected {:?}", other),
    }
    assert!(kad.kbuckets().is_empty());
}

#[test]
fn connected_peers_may_have_to_wait() {
    let mut config = Config::default();
    config.set_kbucket_size(nonzero(1));
    let mut kad = configured(config);
    let peers = far_peers(&kad, 3);
    kad.add_address_at(&peers[0], addr(0), at(0));
    kad.queued_events.clear();
    connect(&mut kad, peers[1]);
    confirm(&mut kad, peers[1], dialer(1), at(0));
    match next_event(&mut kad) {
        Event::PendingRoutablePeer { peer, address } => {
            assert_eq!(peer, peers[1]);
            assert_eq!(address, addr(1));
        }
        other => panic!("unexpected {:?}", other),
    }
    assert_eq!(dialed(kad.queued_events.pop_front()), peers[0]);
    connect(&mut kad, peers[2]);
    confirm(&mut kad, peers[2], dialer(2), at(0));
    assert!(matches!(next_event(&mut kad), Event::RoutablePeer { peer, .. } if peer == peers[2]));
}

#[test]
fn a_peer_that_reconnects_is_not_dialed() {
    let mut config = Config::default();
    config.set_kbucket_size(nonzero(1));
    let mut kad = configured(config);
    let peers = far_peers(&kad, 2);
    kad.add_address_at(&peers[0], addr(0), at(0));
    kad.queued_events.clear();
    connect(&mut kad, peers[0]);
    connect(&mut kad, peers[1]);
    confirm(&mut kad, peers[1], dialer(1), at(0));
    assert!(matches!(next_event(&mut kad), Event::PendingRoutablePeer { .. }));
    assert!(kad.queued_events.is_empty());
}

#[test]
fn unsupported_peers_count_as_disconnected() {
    let mut kad = kademlia();
    let peer = PeerId::random();
    connect(&mut kad, peer);
    confirm(&mut kad, peer, dialer(1), at(0));
    report(&mut kad, peer, HandlerEvent::ProtocolNotSupported { endpoint: dialer(1) });
    let bucket = kad.kbucket(&peer.to_bytes()).unwrap();
    assert_eq!(bucket.entries[0].status, NodeStatus::Disconnected);
    kad.queued_events.clear();
    report(
        &mut kad,
        PeerId::random(),
        HandlerEvent::ProtocolNotSupported { endpoint: dialer(1) },
    );
    assert!(kad.queued_events.is_empty());
}

#[test]
fn closing_the_last_connection_disconnects() {
    let mut kad = kademlia();
    let peer = PeerId::random();
    connect(&mut kad, peer);
    let handler = kad.handle_established_outbound_connection(
        connection(7),
        peer,
        &addr(1),
        Endpoint::Dialer,
        PortUse::Reuse,
    );
    assert_eq!(handler.remote_peer_id, peer);
    assert_eq!(handler.mode, Mode::Client);
    assert!(handler.preloaded.is_empty());
    confirm(&mut kad, peer, dialer(1), at(0));
    let closed = |remaining_established| FromSwarm::ConnectionClosed {
        peer_id: peer,
        connection_id: connection(7),
        endpoint: dialer(1),
        remaining_established,
    };
    kad.on_swarm_event(closed(1));
    assert!(kad.connections.entries.is_empty());
    assert!(kad.connected_peers.contains(&peer));
    kad.on_swarm_event(closed(0));
    assert!(!kad.connected_peers.contains(&peer));
    let bucket = kad.kbucket(&peer.to_bytes()).unwrap();
    assert_eq!(bucket.entries[0].status, NodeStatus::Disconnected);
}

#[test]
fn failed_addresses_are_removed_but_the_last() {
    let mut kad = kademlia();
    let peer = PeerId::random();
    kad.add_address(&peer, addr(1));
    kad.add_address(&peer, addr(2));
    kad.on_swarm_event(FromSwarm::DialFailure {
        peer_id: Some(peer),
        connection_id: connection(1),
        error: DialError::Transport(vec![full_addr(1, peer)]),
    });
    assert_eq!(kad.handle_pending_outbound_connection(Some(peer)), vec![full_addr(2, peer)]);
    kad.on_swarm_event(FromSwarm::ConnectionEstablished {
        peer_id: peer,
        failed_addresses: vec![full_addr(2, peer)],
        other_established: 0,
    });
    assert_eq!(kad.handle_pending_outbound_connection(Some(peer)), vec![full_addr(2, peer)]);
}

#[test]
fn changed_addresses_are_replaced() {
    let mut kad = kademlia();
    let peer = PeerId::random();
    connect(&mut kad, peer);
    confirm(&mut kad, peer, dialer(1), at(0));
    let id = kad.get_closest_peers(vec![1]);
    let other = PeerId::random();
    contact(&mut kad, id, peer);
    report(
        &mut kad,
        peer,
        HandlerEvent::FindNodeRes { closer_peers: vec![kad_peer(other, 5)], query_id: id },
    );
    assert_eq!(kad.handle_pending_outbound_connection(Some(other)), vec![addr(5)]);
    for p in [peer, other] {
        let n = if p == peer { 1 } else { 5 };
        kad.on_swarm_event(FromSwarm::AddressChange {
            peer_id: p,
            old: dialer(n),
            new: listener(6),
        });
        assert_eq!(kad.handle_pending_outbound_connection(Some(p)), vec![addr(6)]);
    }
}

#[test]
fn closest_peers_are_told_in_order_and_without_the_asker() {
    let mut config = Config::default();
    config.set_replication_factor(nonzero(3));
    let mut kad = configured(config);
    let peers = add_peers(&mut kad, 10);
    let target = KeyBytes::new(&vec![1, 2, 3]);
    let all = kad.get_closest_local_peers(&target);
    assert_eq!(all.len(), peers.len());
    for i in 1..all.len() {
        assert!(distance_to(&all[i - 1], &target).is_le(&distance_to(&all[i], &target)));
    }
    let told: Vec<PeerId> =
        kad.find_closest_local_peers(&target, &all[1]).iter().map(|p| p.node_id).collect();
    assert_eq!(told, vec![all[0], all[2], all[3]]);
    let first = &kad.find_closest_local_peers(&target, &all[1])[0];
    assert_eq!(first.multiaddrs.len(), 1);
    assert_eq!(first.connection_ty, ConnectionType::NotConnected);
}

#[test]
fn buckets_hold_what_was_added() {
    let mut kad = kademlia();
    let peers = add_peers(&mut kad, 8);
    let buckets = kad.kbuckets();
    let total: usize = buckets.iter().map(|b| b.entries.len()).sum();
    assert_eq!(total, peers.len());
    let local = KeyBytes::from_peer(&kad.local_peer_id);
    for bucket in &buckets {
        for entry in &bucket.entries {
            let d = distance_to(&entry.peer, &local);
            assert!(bucket.range.0.is_le(&d) && d.is_le(&bucket.range.1));
            assert_eq!(d.ilog2(), Some(bucket.index));
        }
    }
}

////////////////////////////////////////////////////////////////////////////////
// Searches

#[test]
fn a_search_finds_the_closest_peers_that_answer() {
    let mut kad = kademlia();
    let known = add_peers(&mut kad, 1)[0];
    let id = kad.get_closest_peers(vec![1, 2]);
    assert!(matches!(kad.poll_at(PollInput::Begin, at(0)), PollOutput::AskLookups));
    contact(&mut kad, id, known);
    assert_eq!(dialed(kad.queued_events.pop_front()), known);

    // The request waits for the connection.
    let handler =
        kad.handle_established_inbound_connection(connection(3), known, &addr(1), &addr(2));
    assert_eq!(handler.preloaded.len(), 1);
    match &handler.preloaded[0] {
        HandlerIn::FindNodeReq { key, query_id } => {
            assert_eq!(key, &vec![1, 2]);
            assert_eq!(*query_id, id);
        }
        other => panic!("unexpected {:?}", other),
    }
    connect(&mut kad, known);

    // Answers name further candidates, but never the local node.
    let found = [PeerId::random(), PeerId::random()];
    let me = kad.local_peer_id;
    report(
        &mut kad,
        known,
        HandlerEvent::FindNodeRes {
            closer_peers: vec![kad_peer(found[0], 10), kad_peer(me, 11), kad_peer(found[1], 12)],
            query_id: id,
        },
    );
    assert!(kad.handle_pending_outbound_connection(Some(me)).is_empty());
    for peer in found {
        connect(&mut kad, peer);
        contact(&mut kad, id, peer);
        match next_command(&mut kad) {
            (p, HandlerIn::FindNodeReq { .. }) => assert_eq!(p, peer),
            other => panic!("unexpected {:?}", other),
        }
    }
    report(
        &mut kad,
        found[0],
        HandlerEvent::FindNodeRes { closer_peers: vec![], query_id: id },
    );
    report(
        &mut kad,
        found[1],
        HandlerEvent::QueryError { query_id: id, error: RequestError { reason: String::new() } },
    );

    let (reported, result, stats, step) = progress(finish(&mut kad, id));
    assert_eq!(reported, id);
    assert!(step.last);
    assert_eq!(step.count.get(), 1);
    assert_eq!((stats.requests, stats.success, stats.failure), (3, 2, 1));
    match result {
        QueryResult::GetClosestPeers(Ok(ok)) => {
            assert_eq!(ok.key, vec![1, 2]);
            let ids: Vec<PeerId> = ok.peers.iter().map(|p| p.peer_id).collect();
            let target = KeyBytes::new(&vec![1, 2]);
            let mut expected = vec![known, found[0]];
            expected.sort_by_key(|p| {
                let d = distance_to(p, &target);
                (d.hi, d.lo)
            });
            assert_eq!(ids, expected);
            let info = ok.peers.iter().find(|p| p.peer_id == found[0]).unwrap();
            assert_eq!(info.addrs, vec![addr(10)]);
        }
        other => panic!("unexpected {:?}", other),
    }
    assert!(kad.query(&id).is_none());
}

#[test]
fn a_search_can_be_limited() {
    let mut kad = kademlia();
    let peers = add_peers(&mut kad, 5);
    let id = kad.get_n_closest_peers(vec![9], nonzero(2));
    for peer in &peers {
        connect(&mut kad, *peer);
        contact(&mut kad, id, *peer);
        report(
            &mut kad,
            *peer,
            HandlerEvent::FindNodeRes { closer_peers: vec![], query_id: id },
        );
    }
    match progress(finish(&mut kad, id)).1 {
        QueryResult::GetClosestPeers(Ok(ok)) => {
            let ids: Vec<PeerId> = ok.peers.iter().map(|p| p.peer_id).collect();
            let all = kad.get_closest_local_peers(&KeyBytes::new(&vec![9]));
            assert_eq!(ids, all[..2].to_vec());
        }
        other => panic!("unexpected {:?}", other),
    }
    let id = kad.get_n_closest_peers(vec![9], nonzero(50));
    match kad.query(&id).unwrap().info() {
        QueryInfo::GetClosestPeers { num_results, .. } => {
            assert_eq!(num_results.unwrap().get(), 20)
        }
        other => panic!("unexpected {:?}", other),
    }
}

#[test]
fn a_search_times_out() {
    let mut kad = kademlia();
    let peer = add_peers(&mut kad, 1)[0];
    let id = kad.get_closest_peers(vec![1]);
    contact(&mut kad, id, peer);
    kad.queued_events.clear();
    assert!(matches!(decide(&mut kad, LookupStep::TimedOut { id }, at(59)), PollOutput::Pending));
    let (_, result, _, step) = progress(decide(&mut kad, LookupStep::TimedOut { id }, at(60)));
    assert!(step.last);
    match result {
        QueryResult::GetClosestPeers(Err(error)) => {
            assert_eq!(error.message(), "the request timed out");
            assert_eq!(error.key(), &vec![1]);
            let GetClosestPeersError::Timeout { ref peers, .. } = error;
            assert!(peers.is_empty());
            assert_eq!(error.into_key(), vec![1]);
        }
        other => panic!("unexpected {:?}", other),
    }
}

#[test]
fn a_cancelled_search_reports_nothing() {
    let mut kad = kademlia();
    let peer = add_peers(&mut kad, 1)[0];
    let id = kad.get_providers(key("k"));
    contact(&mut kad, id, peer);
    kad.queued_events.clear();
    assert!(kad.cancel_query(&id));
    assert!(!kad.cancel_query(&id));
    report(
        &mut kad,
        peer,
        HandlerEvent::GetProvidersRes {
            closer_peers: vec![],
            provider_peers: vec![kad_peer(peer, 1)],
            query_id: id,
        },
    );
    assert!(kad.queued_events.is_empty());
    assert!(matches!(finish(&mut kad, id), PollOutput::Pending));
    assert!(kad.no_events_waker);
}

#[test]
fn running_queries_can_be_inspected_and_finished() {
    let mut kad = kademlia();
    let a = kad.get_closest_peers(vec![1]);
    let b = kad.get_record(key("k"));
    assert_ne!(a, b);
    let ids: Vec<QueryId> = kad.iter_queries().iter().map(|q| q.id()).collect();
    assert_eq!(ids, vec![a, b]);
    assert!(matches!(kad.query(&a).unwrap().info(), QueryInfo::GetClosestPeers { .. }));
    assert_eq!(kad.query(&b).unwrap().stats().requests, 0);
    {
        let mut query = kad.query_mut(&a).unwrap();
        assert_eq!(query.id(), a);
        assert!(matches!(query.info(), QueryInfo::GetClosestPeers { .. }));
        assert_eq!(query.stats().success, 0);
        query.finish();
    }
    assert!(kad.query(&a).is_none());
    assert!(kad.query_mut(&a).is_none());
    assert_eq!(kad.iter_queries_mut(), vec![b]);
    assert!(kad.query(&QueryId(77)).is_none());
}

#[test]
fn dial_failures_fail_the_candidate() {
    let mut kad = kademlia();
    let peer = add_peers(&mut kad, 1)[0];
    let id = kad.get_closest_peers(vec![1]);
    contact(&mut kad, id, peer);
    let failure = |error| FromSwarm::DialFailure {
        peer_id: Some(peer),
        connection_id: connection(1),
        error,
    };
    kad.on_swarm_event(failure(DialError::DialPeerConditionFalse(PeerCondition::Disconnected)));
    assert_eq!(kad.query(&id).unwrap().stats().failure, 0);
    kad.on_swarm_event(failure(DialError::Aborted));
    assert_eq!(kad.query(&id).unwrap().stats().failure, 1);
}

////////////////////////////////////////////////////////////////////////////////
// Records

#[test]
fn a_local_record_is_found_at_once() {
    let mut kad = kademlia();
    kad.store_mut().put(record("k", 7)).unwrap();
    let id = kad.get_record(key("k"));
    let (reported, result, _, step) = progressed(next_event(&mut kad));
    assert_eq!(reported, id);
    assert_eq!((step.count.get(), step.last), (1, false));
    match result {
        QueryResult::GetRecord(Ok(GetRecordOk::FoundRecord(found))) => {
            assert!(found.peer.is_none());
            assert_eq!(*found.record.value, vec![7]);
        }
        other => panic!("unexpected {:?}", other),
    }
    let (_, result, _, step) = progress(finish(&mut kad, id));
    assert_eq!((step.count.get(), step.last), (2, true));
    assert!(matches!(
        result,
        QueryResult::GetRecord(Ok(GetRecordOk::FinishedWithNoAdditionalRecord { .. }))
    ));
}

#[test]
fn an_expired_record_is_not_found() {
    let mut kad = kademlia();
    let mut old = record("k", 7);
    old.expires = Some(at(10));
    let got = kad.look_up(&key("k"), Some(old.clone()), at(9));
    assert!(got.is_some());
    kad.store_mut().put(old.clone()).unwrap();
    let id = kad.get_record_with(key("k"), Some(old), at(10));
    assert!(kad.queued_events.is_empty());
    assert!(kad.store.records.is_empty());
    match progress(finish(&mut kad, id)).1 {
        QueryResult::GetRecord(Err(error)) => {
            assert_eq!(error.message(), "the record was not found");
            assert!(error.key().equals(&key("k")));
            assert!(matches!(error, GetRecordError::NotFound { .. }));
        }
        other => panic!("unexpected {:?}", other),
    }
}

#[test]
fn records_of_peers_are_reported_one_by_one() {
    let mut kad = kademlia();
    let peers = add_peers(&mut kad, 4);
    let id = kad.get_record(key("k"));
    for peer in &peers {
        connect(&mut kad, *peer);
        contact(&mut kad, id, *peer);
        match next_command(&mut kad).1 {
            HandlerIn::GetRecord { key: k, .. } => assert!(k.equals(&key("k"))),
            other => panic!("unexpected {:?}", other),
        }
    }
    for (i, peer) in peers.iter().enumerate() {
        let found = if i < 2 { Some(record("k", i as u8)) } else { None };
        report(
            &mut kad,
            *peer,
            HandlerEvent::GetRecordRes { record: found, closer_peers: vec![], query_id: id },
        );
        if i < 2 {
            let (_, result, _, step) = progressed(next_event(&mut kad));
            assert_eq!((step.count.get(), step.last), (i + 1, false));
            match result {
                QueryResult::GetRecord(Ok(GetRecordOk::FoundRecord(found))) => {
                    assert_eq!(found.peer, Some(*peer));
                    assert_eq!(*found.record.value, vec![i as u8]);
                }
                other => panic!("unexpected {:?}", other),
            }
        }
    }
    let (_, result, _, step) = progress(finish(&mut kad, id));
    assert_eq!((step.count.get(), step.last), (3, true));
    match result {
        QueryResult::GetRecord(Ok(GetRecordOk::FinishedWithNoAdditionalRecord {
            cache_candidates,
        })) => {
            let target = KeyBytes::new(&b"k".to_vec());
            let mut without = vec![peers[2], peers[3]];
            without.sort_by_key(|p| {
                let d = distance_to(p, &target);
                (d.hi, d.lo)
            });
            assert_eq!(cache_candidates, vec![(distance_to(&without[0], &target), without[0])]);
        }
        other => panic!("unexpected {:?}", other),
    }
}

#[test]
fn caching_can_be_disabled_or_widened() {
    for (caching, expected) in
        [(Caching::Disabled, 0), (Caching::Enabled { max_peers: 2 }, 2)]
    {
        let mut config = Config::default();
        config.set_caching(caching);
        let mut kad = configured(config);
        let peers = add_peers(&mut kad, 5);
        let id = kad.get_record(key("k"));
        for peer in &peers {
            report(
                &mut kad,
                *peer,
                HandlerEvent::GetRecordRes { record: None, closer_peers: vec![], query_id: id },
            );
        }
        match kad.query(&id).unwrap().info() {
            QueryInfo::GetRecord { cache_candidates, .. } => {
                assert_eq!(cache_candidates.len(), expected);
                for i in 1..cache_candidates.len() {
                    assert!(cache_candidates[i - 1].0.is_lt(&cache_candidates[i].0));
                }

                // They are the closest of all that were asked.
                let target = KeyBytes::new(&b"k".to_vec());
                let named: Vec<PeerId> = cache_candidates.iter().map(|c| c.1).collect();
                let mut closest = kad.get_closest_local_peers(&target);
                closest.truncate(expected);
                assert_eq!(named, closest);
            }
            other => panic!("unexpected {:?}", other),
        }
    }
}

#[test]
fn a_record_lookup_times_out() {
    let mut kad = kademlia();
    let peer = add_peers(&mut kad, 1)[0];
    let id = kad.get_record(key("k"));
    contact(&mut kad, id, peer);
    match progress(decide(&mut kad, LookupStep::TimedOut { id }, at(60))).1 {
        QueryResult::GetRecord(Err(error)) => {
            assert_eq!(error.message(), "the request timed out");
            assert!(error.into_key().equals(&key("k")));
        }
        other => panic!("unexpected {:?}", other),
    }
}

#[test]
fn a_record_is_published() {
    let mut kad = kademlia();
    let peers = add_peers(&mut kad, 3);
    let me = kad.local_peer_id;
    let id = kad.put_record_at(record("k", 1), Quorum::N(nonzero(2)), at(100)).unwrap();

    // It is stored as it was given, with the local node as its publisher.
    assert_eq!(kad.store.records.len(), 1);
    assert_eq!(kad.store.records[0].publisher, Some(me));
    assert!(kad.store.records[0].expires.is_none());

    // First the closest peers are searched for.
    for peer in &peers {
        connect(&mut kad, *peer);
        contact(&mut kad, id, *peer);
        match next_command(&mut kad).1 {
            HandlerIn::FindNodeReq { key, .. } => assert_eq!(key, b"k".to_vec()),
            other => panic!("unexpected {:?}", other),
        }
        report(
            &mut kad,
            *peer,
            HandlerEvent::FindNodeRes { closer_peers: vec![], query_id: id },
        );
    }
    assert!(matches!(finish(&mut kad, id), PollOutput::AskLookups));

    // Then the record is sent to them, with the configured time to live.
    for peer in &peers[..2] {
        contact(&mut kad, id, *peer);
        match next_command(&mut kad).1 {
            HandlerIn::PutRecord { record, query_id } => {
                assert_eq!(record.publisher, Some(me));
                assert_eq!(record.expires, Some(at(100 + 36 * 3600)));
                assert_eq!(query_id, id);
            }
            other => panic!("unexpected {:?}", other),
        }
        assert!(kad.query(&id).is_some());
        report(&mut kad, *peer, HandlerEvent::PutRecordRes { query_id: id });
    }

    // It is done once enough peers have it.
    assert!(kad.query(&id).is_none());
    let (reported, result, stats, step) = progress(finish(&mut kad, id));
    assert_eq!(reported, id);
    assert_eq!((step.count.get(), step.last), (1, true));
    assert_eq!((stats.requests, stats.success), (5, 5));
    match result {
        QueryResult::PutRecord(Ok(ok)) => assert!(ok.key.equals(&key("k"))),
        other => panic!("unexpected {:?}", other),
    }
}

#[test]
fn a_record_keeps_its_own_expiry() {
    let mut kad = kademlia();
    let mut short = record("k", 1);
    short.expires = Some(at(7));
    let id = kad.put_record_at(short, Quorum::One, at(0)).unwrap();
    assert_eq!(kad.store.records[0].expires, Some(at(7)));
    match kad.query(&id).unwrap().info() {
        QueryInfo::PutRecord { record, quorum, context, .. } => {
            assert_eq!(record.expires, Some(at(7)));
            assert_eq!(quorum.get(), 1);
            assert_eq!(*context, PutRecordContext::Publish);
        }
        other => panic!("unexpected {:?}", other),
    }
}

#[test]
fn a_full_store_refuses() {
    let mut kad = kademlia();
    kad.store_mut().error = Some(StoreError::ValueTooLarge);
    assert_eq!(kad.put_record(record("k", 1), Quorum::One), Err(StoreError::ValueTooLarge));
    kad.store_mut().error = Some(StoreError::MaxProvidedKeys);
    assert_eq!(kad.start_providing(key("k")), Err(StoreError::MaxProvidedKeys));
    assert!(kad.iter_queries().is_empty());
}

#[test]
fn answers_of_one_peer_count_once() {
    let mut kad = kademlia();
    let peers = vec![PeerId::random(), PeerId::random()];
    let listed = vec![peers[0], peers[1], peers[0]];
    let id = kad.put_record_to_at(record("k", 1), listed, Quorum::All, at(0));
    match kad.query(&id).unwrap().info() {
        QueryInfo::PutRecord { record, quorum, context, .. } => {
            assert_eq!(quorum.get(), 2);
            assert_eq!(*context, PutRecordContext::Custom);
            assert_eq!(record.expires, Some(at(36 * 3600)));
        }
        other => panic!("unexpected {:?}", other),
    }
    assert!(kad.store.records.is_empty());
    report(&mut kad, peers[0], HandlerEvent::PutRecordRes { query_id: id });
    report(&mut kad, peers[0], HandlerEvent::PutRecordRes { query_id: id });
    match progress(finish(&mut kad, id)).1 {
        QueryResult::PutRecord(Err(error)) => {
            assert_eq!(error.message(), "the quorum failed; needed 2 peers");
            assert!(error.key().equals(&key("k")));
            match error {
                PutRecordError::QuorumFailed { success, quorum, .. } => {
                    assert_eq!(success, vec![peers[0]]);
                    assert_eq!(quorum.get(), 2);
                }
                other => panic!("unexpected {:?}", other),
            }
        }
        other => panic!("unexpected {:?}", other),
    }
}

#[test]
fn storing_at_no_peer_fails() {
    let mut kad = kademlia();
    let id = kad.put_record_to(record("k", 1), vec![], Quorum::All);
    match progress(finish(&mut kad, id)).1 {
        QueryResult::PutRecord(Err(PutRecordError::QuorumFailed { quorum, .. })) => {
            assert_eq!(quorum.get(), 1)
        }
        other => panic!("unexpected {:?}", other),
    }
}

#[test]
fn storing_times_out() {
    let mut kad = kademlia();
    let peer = PeerId::random();
    let id = kad.put_record_to(record("k", 1), vec![peer], Quorum::All);
    contact(&mut kad, id, peer);
    match progress(decide(&mut kad, LookupStep::TimedOut { id }, at(60))).1 {
        QueryResult::PutRecord(Err(error)) => {
            assert_eq!(error.message(), "the request timed out");
            assert!(matches!(error, PutRecordError::Timeout { .. }));
            assert!(error.into_key().equals(&key("k")));
        }
        other => panic!("unexpected {:?}", other),
    }
}

#[test]
fn only_own_records_are_removed() {
    let mut kad = kademlia();
    kad.put_record(record("own", 1), Quorum::One).unwrap();
    let mut foreign = record("foreign", 1);
    foreign.publisher = Some(PeerId::random());
    kad.store_mut().put(foreign).unwrap();
    kad.remove_record(&key("own"));
    kad.remove_record(&key("foreign"));
    kad.remove_record(&key("unknown"));
    assert_eq!(kad.store.records.len(), 1);
    assert!(kad.store.records[0].key.equals(&key("foreign")));
}

////////////////////////////////////////////////////////////////////////////////
// Providers

#[test]
fn a_provider_is_announced() {
    let mut kad = kademlia();
    let peer = add_peers(&mut kad, 1)[0];
    let me = kad.local_peer_id;
    kad.on_swarm_event(FromSwarm::ExternalAddrConfirmed { addr: addr(99) });
    kad.queued_events.clear();
    let id = kad.start_providing(key("k")).unwrap();
    assert_eq!(kad.store.providers.len(), 1);
    assert_eq!(kad.store.providers[0].provider, me);
    assert!(kad.store.providers[0].addresses.is_empty());

    connect(&mut kad, peer);
    contact(&mut kad, id, peer);
    assert!(matches!(next_command(&mut kad).1, HandlerIn::FindNodeReq { .. }));
    report(&mut kad, peer, HandlerEvent::FindNodeRes { closer_peers: vec![], query_id: id });
    assert!(matches!(finish(&mut kad, id), PollOutput::AskLookups));
    contact(&mut kad, id, peer);
    match next_command(&mut kad).1 {
        HandlerIn::AddProvider { key: k, provider, query_id } => {
            assert!(k.equals(&key("k")));
            assert_eq!(provider.node_id, me);
            assert_eq!(provider.multiaddrs, vec![addr(99)]);
            assert_eq!(provider.connection_ty, ConnectionType::Connected);
            assert_eq!(query_id, id);
        }
        other => panic!("unexpected {:?}", other),
    }
    let (_, result, stats, step) = progress(finish(&mut kad, id));
    assert_eq!((step.count.get(), step.last), (1, true));
    assert_eq!((stats.requests, stats.success), (2, 2));
    match result {
        QueryResult::StartProviding(Ok(ok)) => assert!(ok.key.equals(&key("k"))),
        other => panic!("unexpected {:?}", other),
    }
    kad.stop_providing(&key("k"));
    assert!(kad.store.providers.is_empty());
}

#[test]
fn an_announcement_times_out() {
    let mut kad = kademlia();
    let peer = add_peers(&mut kad, 1)[0];
    let id = kad.start_add_provider(key("k"), AddProviderContext::Republish);
    contact(&mut kad, id, peer);
    match progress(decide(&mut kad, LookupStep::TimedOut { id }, at(60))).1 {
        QueryResult::RepublishProvider(Err(error)) => {
            assert_eq!(error.message(), "the request timed out");
            assert!(error.key().equals(&key("k")));
            let AddProviderError::Timeout { .. } = error;
            assert!(error.into_key().equals(&key("k")));
        }
        other => panic!("unexpected {:?}", other),
    }
}

#[test]
fn no_provider_is_reported_twice() {
    let mut kad = kademlia();
    let peers = add_peers(&mut kad, 2);
    let local = PeerId::random();
    let remote = PeerId::random();
    let mut stored = ProviderRecord::new(key("k"), local, vec![addr(1)]);
    stored.expires = Some(at(50));
    let mut stale = ProviderRecord::new(key("k"), PeerId::random(), vec![]);
    stale.expires = Some(at(10));
    let id = kad.get_providers_with(key("k"), vec![stored, stale], at(20));
    let (_, result, _, step) = progressed(next_event(&mut kad));
    assert_eq!(step.count.get(), 1);
    match result {
        QueryResult::GetProviders(Ok(GetProvidersOk::FoundProviders { providers, .. })) => {
            assert_eq!(providers.entries, vec![(local, vec![addr(1)])]);
        }
        other => panic!("unexpected {:?}", other),
    }
    for (i, peer) in peers.iter().enumerate() {
        report(
            &mut kad,
            *peer,
            HandlerEvent::GetProvidersRes {
                closer_peers: vec![],
                provider_peers: vec![kad_peer(local, 2), kad_peer(remote, 3)],
                query_id: id,
            },
        );
        let (_, result, _, step) = progressed(next_event(&mut kad));
        assert_eq!((step.count.get(), step.last), (i + 2, false));
        match result {
            QueryResult::GetProviders(Ok(GetProvidersOk::FoundProviders { providers, .. })) => {
                let expected = if i == 0 { vec![(remote, vec![addr(3)])] } else { vec![] };
                assert_eq!(providers.entries, expected);
            }
            other => panic!("unexpected {:?}", other),
        }
    }

    // The addresses that came with the answers are dialed.
    assert_eq!(kad.handle_pending_outbound_connection(Some(remote)), vec![addr(3)]);
    match kad.query(&id).unwrap().info() {
        QueryInfo::GetProviders { providers_found, .. } => assert_eq!(*providers_found, 2),
        other => panic!("unexpected {:?}", other),
    }
    let (_, result, _, step) = progress(finish(&mut kad, id));
    assert_eq!((step.count.get(), step.last), (4, true));
    assert!(matches!(
        result,
        QueryResult::GetProviders(Ok(GetProvidersOk::FinishedWithNoAdditionalRecord { .. }))
    ));
}

#[test]
fn reported_providers_are_remembered_while_the_search_goes_on() {
    let mut kad = kademlia();
    let peers = add_peers(&mut kad, 2);
    let provider = PeerId::random();
    let id = kad.get_providers_with(key("k"), vec![], at(0));
    let named = |query_id| HandlerEvent::GetProvidersRes {
        closer_peers: vec![],
        provider_peers: vec![kad_peer(provider, 1)],
        query_id,
    };
    contact(&mut kad, id, peers[0]);
    kad.queued_events.clear();
    connect(&mut kad, peers[0]);
    report(&mut kad, peers[0], named(id));
    match progressed(next_event(&mut kad)).1 {
        QueryResult::GetProviders(Ok(GetProvidersOk::FoundProviders { providers, .. })) => {
            assert_eq!(providers.entries, vec![(provider, vec![addr(1)])]);
        }
        other => panic!("unexpected {:?}", other),
    }
    kad.on_swarm_event(FromSwarm::ConnectionClosed {
        peer_id: peers[0],
        connection_id: connection(1),
        endpoint: dialer(0),
        remaining_established: 0,
    });

    // Other queries are started, finished and cancelled.
    let other = kad.get_closest_peers(b"other".to_vec());
    let ended = kad.get_providers_with(key("k"), vec![], at(0));
    kad.query_mut(&other).unwrap().finish();
    assert!(kad.cancel_query(&ended));
    kad.bootstrap().unwrap();
    kad.queued_events.clear();
    assert!(matches!(kad.poll_at(PollInput::Begin, at(0)), PollOutput::AskLookups));

    contact(&mut kad, id, peers[1]);
    kad.queued_events.clear();
    report(&mut kad, peers[1], named(id));
    match progressed(next_event(&mut kad)).1 {
        QueryResult::GetProviders(Ok(GetProvidersOk::FoundProviders { providers, .. })) => {
            assert!(providers.entries.is_empty());
        }
        other => panic!("unexpected {:?}", other),
    }
}

#[test]
fn a_search_for_providers_times_out() {
    let mut kad = kademlia();
    let peer = add_peers(&mut kad, 1)[0];
    let id = kad.get_providers(key("k"));
    assert!(kad.queued_events.is_empty());
    contact(&mut kad, id, peer);
    match progress(decide(&mut kad, LookupStep::TimedOut { id }, at(60))).1 {
        QueryResult::GetProviders(Err(error)) => {
            assert_eq!(error.message(), "the request timed out");
            assert!(error.key().equals(&key("k")));
            let GetProvidersError::Timeout { ref closest_peers, .. } = error;
            assert!(closest_peers.is_empty());
            assert!(error.into_key().equals(&key("k")));
        }
        other => panic!("unexpected {:?}", other),
    }
}

////////////////////////////////////////////////////////////////////////////////
// Requests of peers

#[test]
fn requests_for_peers_are_answered() {
    let mut kad = kademlia();
    let peers = add_peers(&mut kad, 3);
    report(
        &mut kad,
        peers[0],
        HandlerEvent::FindNodeReq { key: vec![1], request_id: RequestId(5) },
    );
    match next_event(&mut kad) {
        Event::InboundRequest { request: InboundRequest::FindNode { num_closer_peers } } => {
            assert_eq!(num_closer_peers, 2)
        }
        other => panic!("unexpected {:?}", other),
    }
    match kad.queued_events.pop_front() {
        Some(ToSwarm::NotifyHandler {
            peer_id,
            handler: NotifyHandler::One(c),
            event: HandlerIn::FindNodeRes { closer_peers, request_id },
        }) => {
            assert_eq!(peer_id, peers[0]);
            assert_eq!(c, connection(1));
            assert_eq!(closer_peers.len(), 2);
            assert!(closer_peers.iter().all(|p| p.node_id != peers[0]));
            assert_eq!(request_id, RequestId(5));
        }
        other => panic!("unexpected {:?}", other),
    }
    assert!(kad.queued_events.is_empty());
}

#[test]
fn requests_for_providers_are_answered() {
    let mut kad = kademlia();
    let me = kad.local_peer_id;
    let asker = PeerId::random();
    let known = add_peers(&mut kad, 1)[0];
    let remote = PeerId::random();
    connect(&mut kad, remote);
    kad.on_swarm_event(FromSwarm::NewListenAddr { listener_id: ListenerId::next(), addr: addr(50) });
    kad.on_swarm_event(FromSwarm::ExternalAddrConfirmed { addr: addr(51) });
    kad.queued_events.clear();
    kad.start_providing(key("k")).unwrap();
    for (peer, addresses) in [
        (asker, vec![addr(1)]),
        (remote, vec![addr(2)]),
        (known, vec![]),
        (PeerId::random(), vec![]),
    ] {
        kad.store_mut().add_provider(ProviderRecord::new(key("k"), peer, addresses)).unwrap();
    }
    report(
        &mut kad,
        asker,
        HandlerEvent::GetProvidersReq { key: key("k"), request_id: RequestId(6) },
    );
    match next_event(&mut kad) {
        Event::InboundRequest {
            request: InboundRequest::GetProvider { num_closer_peers, num_provider_peers },
        } => {
            assert_eq!(num_closer_peers, 1);
            assert_eq!(num_provider_peers, 3);
        }
        other => panic!("unexpected {:?}", other),
    }
    match next_command(&mut kad) {
        (peer, HandlerIn::GetProvidersRes { provider_peers, closer_peers, request_id }) => {
            assert_eq!(peer, asker);
            assert_eq!(request_id, RequestId(6));
            assert_eq!(closer_peers.len(), 1);
            assert_eq!(provider_peers[0].node_id, me);
            assert_eq!(provider_peers[0].multiaddrs, vec![addr(50), addr(51)]);
            assert_eq!(provider_peers[1].node_id, remote);
            assert_eq!(provider_peers[1].connection_ty, ConnectionType::Connected);
            assert_eq!(provider_peers[2].node_id, known);
            assert_eq!(provider_peers[2].multiaddrs, vec![full_addr(0, known)]);
        }
        other => panic!("unexpected {:?}", other),
    }
}

#[test]
fn expired_listen_addresses_are_not_told() {
    let mut kad = kademlia();
    let listener_id = ListenerId::next();
    for n in [50, 51] {
        kad.on_swarm_event(FromSwarm::NewListenAddr { listener_id, addr: addr(n) });
    }
    kad.on_swarm_event(FromSwarm::ExpiredListenAddr { listener_id, addr: addr(50) });
    kad.start_providing(key("k")).unwrap();
    let told = kad.provider_peers(&key("k"), &PeerId::random());
    assert_eq!(told.len(), 1);
    assert_eq!(told[0].multiaddrs, vec![addr(51)]);
    assert!(kad.provider_peers(&key("k"), &kad.local_peer_id).is_empty());
}

#[test]
fn no_more_providers_are_told_than_records_are_replicated() {
    let mut config = Config::default();
    config.set_replication_factor(nonzero(2));
    let kad = configured(config);
    let records: Vec<ProviderRecord> = (1..5)
        .map(|n| ProviderRecord::new(key("k"), PeerId::random(), vec![addr(n)]))
        .collect();
    let told = kad.provider_peers_with(&records, &records[0].provider, &vec![]);
    let ids: Vec<PeerId> = told.iter().map(|p| p.node_id).collect();
    assert_eq!(ids, vec![records[1].provider, records[2].provider]);
}

#[test]
fn the_clock_goes_on() {
    let kad = kademlia();
    let earlier = kad.now();
    while kad.now() == earlier {}
    assert!(kad.now().reached(&earlier));
    assert!(!earlier.reached(&kad.now()));
}

#[test]
fn requests_for_records_are_answered() {
    let mut kad = kademlia();
    let asker = PeerId::random();
    kad.store_mut().put(record("k", 3)).unwrap();
    report(
        &mut kad,
        asker,
        HandlerEvent::GetRecord { key: key("k"), request_id: RequestId(7) },
    );
    assert!(matches!(
        next_event(&mut kad),
        Event::InboundRequest { request: InboundRequest::GetRecord { present_locally: true, .. } }
    ));
    match next_command(&mut kad).1 {
        HandlerIn::GetRecordRes { record, request_id, .. } => {
            assert_eq!(*record.unwrap().value, vec![3]);
            assert_eq!(request_id, RequestId(7));
        }
        other => panic!("unexpected {:?}", other),
    }
    let mut old = record("k", 3);
    old.expires = Some(at(0));
    kad.store_mut().put(old).unwrap();
    report(
        &mut kad,
        asker,
        HandlerEvent::GetRecord { key: key("k"), request_id: RequestId(8) },
    );
    assert!(matches!(
        next_event(&mut kad),
        Event::InboundRequest { request: InboundRequest::GetRecord { present_locally: false, .. } }
    ));
    assert!(matches!(
        next_command(&mut kad).1,
        HandlerIn::GetRecordRes { record: None, request_id: RequestId(8), .. }
    ));
    assert!(kad.store.records.is_empty());
}

#[test]
fn time_to_live_is_halved() {
    let hour = Duration::from_secs(3600);
    assert_eq!(exp_decrease(hour, 0), hour);
    assert_eq!(exp_decrease(hour, 1), Duration::from_secs(1800));
    assert_eq!(exp_decrease(hour, 4), Duration::from_secs(225));
    assert_eq!(exp_decrease(hour, 12), Duration::from_secs(0));
    assert_eq!(exp_decrease(Duration::from_secs(u64::MAX), 63), Duration::from_secs(1));
    assert_eq!(exp_decrease(Duration::from_secs(u64::MAX), 64), Duration::from_secs(0));
    assert_eq!(exp_decrease(Duration::from_millis(1500), 0), Duration::from_secs(1));
}

fn receive(kad: &mut Kademlia, source: PeerId, record: Record, now: Moment) {
    kad.on_connection_handler_event_at(
        source,
        connection(1),
        HandlerEvent::PutRecord { record, request_id: RequestId(9) },
        now,
    );
}

#[test]
fn received_records_are_stored_and_answered() {
    let mut kad = kademlia();
    let source = PeerId::random();
    receive(&mut kad, source, record("k", 4), at(10));
    match next_event(&mut kad) {
        Event::InboundRequest {
            request: InboundRequest::PutRecord { source: s, connection: c, record },
        } => {
            assert_eq!(s, source);
            assert_eq!(c, connection(1));
            assert!(record.is_none());
        }
        other => panic!("unexpected {:?}", other),
    }
    match next_command(&mut kad) {
        (peer, HandlerIn::PutRecordRes { key: k, value, request_id }) => {
            assert_eq!(peer, source);
            assert!(k.equals(&key("k")));
            assert_eq!(*value, vec![4]);
            assert_eq!(request_id, RequestId(9));
        }
        other => panic!("unexpected {:?}", other),
    }
    assert_eq!(kad.store.records[0].expires, Some(at(10 + 36 * 3600)));
    assert!(kad.put_record_job.as_ref().unwrap().skipped[0].equals(&key("k")));

    // The earlier expiry prevails.
    let mut short = record("s", 4);
    short.expires = Some(at(11));
    receive(&mut kad, source, short, at(10));
    assert_eq!(kad.store.records[1].expires, Some(at(11)));
}

#[test]
fn received_records_keep_their_expiry_without_a_time_to_live() {
    let mut config = Config::default();
    config.set_record_ttl(None);
    let mut kad = configured(config);
    let mut limited = record("l", 1);
    limited.expires = Some(at(11));
    receive(&mut kad, PeerId::random(), limited.clone(), at(10));
    receive(&mut kad, PeerId::random(), record("u", 1), at(10));
    assert_eq!(kad.store.records.len(), 2);
    assert_eq!(kad.store.records[0].expires, Some(at(11)));
    assert!(kad.store.records[1].expires.is_none());

    // One that has expired is not stored.
    let mut old = record("o", 1);
    old.expires = Some(at(10));
    receive(&mut kad, PeerId::random(), old, at(10));
    assert_eq!(kad.store.records.len(), 2);

    // One that is left to the application keeps its expiry too.
    let mut config = Config::default();
    config.set_record_ttl(None).set_record_filtering(StoreInserts::FilterBoth);
    let mut kad = configured(config);
    receive(&mut kad, PeerId::random(), limited, at(10));
    match next_event(&mut kad) {
        Event::InboundRequest { request: InboundRequest::PutRecord { record: Some(r), .. } } => {
            assert_eq!(r.expires, Some(at(11)));
        }
        other => panic!("unexpected {:?}", other),
    }
    assert!(kad.store.records.is_empty());
}

#[test]
fn far_records_are_kept_for_a_shorter_time() {
    let mut config = Config::default();
    config.set_replication_factor(nonzero(1)).set_record_ttl(Some(Duration::from_secs(1000)));
    let mut kad = configured(config);
    add_peers(&mut kad, 12);
    let target = KeyBytes::new(&b"k".to_vec());
    let own = distance_to(&kad.local_peer_id, &target);
    let between = kad
        .get_closest_local_peers(&target)
        .iter()
        .filter(|p| distance_to(p, &target).is_le(&own))
        .count();
    let beyond = std::cmp::max(between, 1) - 1;
    receive(&mut kad, PeerId::random(), record("k", 1), at(0));
    let lifetime: u128 = 1000 >> beyond;
    if lifetime > 0 {
        assert_eq!(kad.store.records[0].expires, Some(at(lifetime)));
    } else {
        assert!(kad.store.records.is_empty());
    }
}

#[test]
fn expired_records_are_answered_but_not_stored() {
    let mut kad = kademlia();
    let mut old = record("k", 4);
    old.expires = Some(at(10));
    receive(&mut kad, PeerId::random(), old, at(10));
    assert!(kad.store.records.is_empty());
    assert!(matches!(next_command(&mut kad).1, HandlerIn::PutRecordRes { .. }));
    assert!(kad.queued_events.is_empty());
}

#[test]
fn own_records_are_not_changed_by_others() {
    let mut kad = kademlia();
    kad.put_record(record("k", 1), Quorum::One).unwrap();
    let mut copy = record("k", 2);
    copy.publisher = Some(kad.local_peer_id);
    receive(&mut kad, PeerId::random(), copy, at(0));
    assert_eq!(*kad.store.records[0].value, vec![1]);
    assert!(matches!(next_command(&mut kad).1, HandlerIn::PutRecordRes { .. }));
    assert!(kad.queued_events.is_empty());
}

#[test]
fn a_record_that_cannot_be_stored_is_refused() {
    let mut kad = kademlia();
    kad.store_mut().error = Some(StoreError::MaxRecords);
    receive(&mut kad, PeerId::random(), record("k", 1), at(0));
    assert!(matches!(next_command(&mut kad).1, HandlerIn::Reset(RequestId(9))));
    assert!(kad.queued_events.is_empty());
}

#[test]
fn filtered_records_are_left_to_the_application() {
    let mut config = Config::default();
    config.set_record_filtering(StoreInserts::FilterBoth);
    let mut kad = configured(config);
    let source = PeerId::random();
    receive(&mut kad, source, record("k", 1), at(0));
    match next_event(&mut kad) {
        Event::InboundRequest { request: InboundRequest::PutRecord { record: Some(r), .. } } => {
            assert_eq!(*r.value, vec![1]);
            assert_eq!(r.expires, Some(at(36 * 3600)));
        }
        other => panic!("unexpected {:?}", other),
    }
    assert!(matches!(next_command(&mut kad).1, HandlerIn::PutRecordRes { .. }));
    assert!(kad.store.records.is_empty());

    report(
        &mut kad,
        source,
        HandlerEvent::AddProvider { key: key("k"), provider: kad_peer(source, 1) },
    );
    match next_event(&mut kad) {
        Event::InboundRequest { request: InboundRequest::AddProvider { record: Some(r) } } => {
            assert_eq!(r.provider, source);
            assert_eq!(r.expires, Some(at(48 * 3600)));
        }
        other => panic!("unexpected {:?}", other),
    }
    assert!(kad.store.providers.is_empty());
}

#[test]
fn only_the_provider_announces_itself() {
    let mut kad = kademlia();
    let source = PeerId::random();
    report(
        &mut kad,
        source,
        HandlerEvent::AddProvider { key: key("k"), provider: kad_peer(PeerId::random(), 1) },
    );
    assert!(kad.store.providers.is_empty());
    assert!(kad.queued_events.is_empty());
    report(
        &mut kad,
        source,
        HandlerEvent::AddProvider { key: key("k"), provider: kad_peer(source, 1) },
    );
    assert_eq!(kad.store.providers.len(), 1);
    assert_eq!(kad.store.providers[0].expires, Some(at(48 * 3600)));
    assert_eq!(kad.store.providers[0].addresses, vec![addr(1)]);
    assert!(matches!(
        next_event(&mut kad),
        Event::InboundRequest { request: InboundRequest::AddProvider { record: None } }
    ));
    kad.store_mut().error = Some(StoreError::MaxProvidedKeys);
    report(
        &mut kad,
        source,
        HandlerEvent::AddProvider { key: key("x"), provider: kad_peer(source, 1) },
    );
    assert!(kad.queued_events.is_empty());
}

////////////////////////////////////////////////////////////////////////////////
// The mode

#[test]
fn the_mode_follows_the_external_addresses() {
    let mut kad = kademlia();
    assert_eq!(kad.mode(), Mode::Client);
    kad.handle_established_inbound_connection(connection(1), PeerId::random(), &addr(1), &addr(2));
    kad.on_swarm_event(FromSwarm::ExternalAddrConfirmed { addr: addr(1) });
    assert_eq!(kad.mode(), Mode::Server);
    assert!(matches!(
        next_command(&mut kad).1,
        HandlerIn::ReconfigureMode { new_mode: Mode::Server }
    ));
    assert!(matches!(next_event(&mut kad), Event::ModeChanged { new_mode: Mode::Server }));
    kad.on_swarm_event(FromSwarm::ExternalAddrConfirmed { addr: addr(1) });
    assert!(kad.queued_events.is_empty());
    kad.on_swarm_event(FromSwarm::ExternalAddrConfirmed { addr: addr(2) });
    assert!(matches!(next_command(&mut kad).1, HandlerIn::ReconfigureMode { .. }));
    assert!(kad.queued_events.is_empty());
    kad.on_swarm_event(FromSwarm::ExternalAddrExpired { addr: addr(1) });
    assert_eq!(kad.mode(), Mode::Server);
    kad.on_swarm_event(FromSwarm::ExternalAddrExpired { addr: addr(2) });
    assert_eq!(kad.mode(), Mode::Client);
}

#[test]
fn a_mode_that_is_set_stays() {
    let mut kad = kademlia();
    kad.no_events_waker = true;
    assert!(kad.set_mode(Some(Mode::Server)));
    assert!(!kad.set_mode(Some(Mode::Server)));
    assert!(kad.queued_events.is_empty());
    kad.on_swarm_event(FromSwarm::ExternalAddrConfirmed { addr: addr(1) });
    kad.on_swarm_event(FromSwarm::ExternalAddrExpired { addr: addr(1) });
    assert_eq!(kad.mode(), Mode::Server);
    kad.set_mode(None);
    assert_eq!(kad.mode(), Mode::Client);
    assert!(matches!(next_event(&mut kad), Event::ModeChanged { new_mode: Mode::Client }));
    assert_eq!(Mode::Client.name(), "client");
    assert_eq!(Mode::Server.name(), "server");
}

#[test]
fn old_external_addresses_are_dropped() {
    let mut kad = kademlia();
    for n in 0..25 {
        kad.on_swarm_event(FromSwarm::ExternalAddrConfirmed { addr: addr(n) });
    }
    let held: Vec<Multiaddr> = kad.external_addresses.as_slice().to_vec();
    let expected: Vec<Multiaddr> = (5..25).rev().map(addr).collect();
    assert_eq!(held, expected);
}

////////////////////////////////////////////////////////////////////////////////
// Bootstrapping and jobs

#[test]
fn bootstrapping_needs_a_peer() {
    let mut kad = kademlia();
    let error = kad.bootstrap().unwrap_err();
    assert_eq!(error.message(), "No known peers.");
    let NoKnownPeers() = error;
    assert_eq!(kad.bootstrap_status.signals, vec![Signal::ResetTimers]);
}

#[test]
fn bootstrapping_goes_from_bucket_to_bucket() {
    let mut kad = kademlia();
    let me = kad.local_peer_id;
    add_peers(&mut kad, 3);
    kad.bootstrap_status.take_signals();
    let id = kad.bootstrap().unwrap();
    assert_eq!(kad.bootstrap_status.take_signals(), vec![Signal::Started]);
    let random = [PeerId::random(), PeerId::random()];
    let q = kad.queries.queries.remove(&id).unwrap();
    let (_, result, _, step) =
        progressed(kad.query_finished_with(q, random.to_vec()).unwrap());
    assert_eq!((step.count.get(), step.last), (1, false));
    match result {
        QueryResult::Bootstrap(Ok(ok)) => {
            assert_eq!(ok.peer, me);
            assert_eq!(ok.num_remaining, 2);
        }
        other => panic!("unexpected {:?}", other),
    }
    let peer = kad.get_closest_local_peers(&KeyBytes::from_peer(&random[0]))[0];
    connect(&mut kad, peer);
    contact(&mut kad, id, peer);
    match next_command(&mut kad).1 {
        HandlerIn::FindNodeReq { key, .. } => assert_eq!(key, random[0].to_bytes()),
        other => panic!("unexpected {:?}", other),
    }
    let (_, result, _, step) = progress(decide(&mut kad, LookupStep::TimedOut { id }, at(60)));
    assert_eq!((step.count.get(), step.last), (2, false));
    match result {
        QueryResult::Bootstrap(Err(error)) => {
            assert_eq!(error.message(), "the request timed out");
            let BootstrapError::Timeout { peer, num_remaining } = error;
            assert_eq!(peer, random[0]);
            assert_eq!(num_remaining, Some(0));
        }
        other => panic!("unexpected {:?}", other),
    }
    let (_, result, _, step) = progress(finish(&mut kad, id));
    assert_eq!((step.count.get(), step.last), (3, true));
    match result {
        QueryResult::Bootstrap(Ok(ok)) => {
            assert_eq!(ok.peer, random[1]);
            assert_eq!(ok.num_remaining, 0);
        }
        other => panic!("unexpected {:?}", other),
    }
    assert_eq!(kad.bootstrap_status.take_signals(), vec![Signal::Finished]);
    assert!(kad.query(&id).is_none());
}

#[test]
fn the_first_fitting_peer_is_picked() {
    let kad = kademlia();
    let local = KeyBytes::from_peer(&kad.local_peer_id);
    let far = far_peers(&kad, 2);
    let mut near = PeerId::random();
    while falls_into(&local, &near, 255) {
        near = PeerId::random();
    }
    assert_eq!(pick_target(&local, &vec![near, far[0], far[1]], 255), far[0]);
    assert_eq!(pick_target(&local, &vec![far[0], far[1]], 3), far[1]);
    assert_eq!(pick_target(&local, &vec![near], 255), near);
}

#[test]
fn a_peer_is_picked_for_each_farther_bucket() {
    let kad = kademlia();
    let local = KeyBytes::from_peer(&kad.local_peer_id);
    let far = far_peers(&kad, 2);
    let mut near = PeerId::random();
    while !falls_into(&local, &near, 254) {
        near = PeerId::random();
    }
    let draws = vec![far.clone(), vec![far[0], near, far[1]], vec![near, far[1], far[0]]];
    assert_eq!(pick_targets(&local, 252, &draws), vec![far[1], near, far[1]]);
    assert!(pick_targets(&local, 255, &vec![]).is_empty());
}

#[test]
fn reports_are_last_when_the_query_is_over() {
    let mut kad = kademlia();
    let peers = add_peers(&mut kad, 2);

    // A publication goes on with its second phase, and then reports its end.
    let id = kad.put_record(record("k", 1), Quorum::One).unwrap();
    assert!(matches!(finish(&mut kad, id), PollOutput::AskLookups));
    assert!(kad.query(&id).is_some());
    let (reported, _, _, step) = progress(finish(&mut kad, id));
    assert_eq!(reported, id);
    assert!(step.last);
    assert!(kad.query(&id).is_none());

    // A bootstrap reports more than once as long as there are buckets left.
    let id = kad.bootstrap().unwrap();
    let q = kad.queries.queries.remove(&id).unwrap();
    let (reported, _, _, step) = progressed(kad.query_finished_with(q, peers).unwrap());
    assert_eq!(reported, id);
    assert!(!step.last);
    assert!(kad.query(&id).is_some());
}

#[test]
fn every_farther_bucket_is_refreshed() {
    let mut kad = kademlia();
    add_peers(&mut kad, 8);
    let nearest = kad.kbuckets().iter().map(|b| b.index).min().unwrap();
    let id = kad.bootstrap().unwrap();
    match progress(finish(&mut kad, id)).1 {
        QueryResult::Bootstrap(Ok(ok)) => assert_eq!(ok.num_remaining, 255 - nearest),
        other => panic!("unexpected {:?}", other),
    }
}

#[test]
fn bootstrapping_happens_when_it_is_due() {
    let mut kad = kademlia();
    add_peers(&mut kad, 1);
    kad.bootstrap_status.take_signals();
    kad.bootstrap_status.due = true;
    assert!(matches!(kad.poll(PollInput::Begin), PollOutput::AskLookups));
    assert!(!kad.bootstrap_status.due);
    assert!(matches!(kad.iter_queries()[0].info(), QueryInfo::Bootstrap { .. }));
    assert_eq!(kad.bootstrap_status.signals, vec![Signal::Started]);
}

#[test]
fn a_new_listen_address_triggers_bootstrapping_when_alone() {
    let mut kad = kademlia();
    let listening =
        |n| FromSwarm::NewListenAddr { listener_id: ListenerId::next(), addr: addr(n) };
    kad.on_swarm_event(listening(1));
    assert_eq!(kad.bootstrap_status.take_signals(), vec![Signal::Trigger]);
    connect(&mut kad, PeerId::random());
    kad.on_swarm_event(listening(2));
    assert!(kad.bootstrap_status.take_signals().is_empty());
}

#[test]
fn jobs_start_few_queries_at_once() {
    let mut kad = kademlia();
    let me = kad.local_peer_id;
    for i in 0..12u8 {
        let mut r = record(&format!("r{}", i), i);
        if i == 0 {
            r.publisher = Some(me);
        }
        kad.put_record_job.as_mut().unwrap().ready.push_back(r);
    }
    kad.add_provider_job
        .as_mut()
        .unwrap()
        .ready
        .push_back(ProviderRecord::new(key("p"), me, vec![]));
    kad.poll(PollInput::Begin);
    let queries = kad.iter_queries();
    assert_eq!(queries.len(), 11);
    match queries[0].info() {
        QueryInfo::AddProvider { context, .. } => {
            assert_eq!(*context, AddProviderContext::Republish)
        }
        other => panic!("unexpected {:?}", other),
    }
    for (i, expected) in [(1, PutRecordContext::Republish), (2, PutRecordContext::Replicate)] {
        match queries[i].info() {
            QueryInfo::PutRecord { context, quorum, .. } => {
                assert_eq!(*context, expected);
                assert_eq!(quorum.get(), 20);
            }
            other => panic!("unexpected {:?}", other),
        }
    }
    assert_eq!(kad.put_record_job.as_ref().unwrap().ready.len(), 2);
}

#[test]
fn jobs_wait_while_many_queries_run() {
    let mut kad = kademlia();
    for _ in 0..100 {
        kad.get_closest_peers(vec![1]);
    }
    kad.put_record_job.as_mut().unwrap().ready.push_back(record("r", 1));
    kad.poll(PollInput::Begin);
    assert_eq!(kad.iter_queries().len(), 100);
    assert_eq!(kad.put_record_job.as_ref().unwrap().ready.len(), 1);
}

#[test]
fn replication_reports_nothing() {
    let mut kad = kademlia();
    let id = kad.start_put_record(record("k", 1), Quorum::All, PutRecordContext::Replicate);
    assert!(matches!(finish(&mut kad, id), PollOutput::AskLookups));
    assert!(matches!(finish(&mut kad, id), PollOutput::AskLookups));
    assert!(kad.query(&id).is_none());
    let id = kad.start_put_record(record("k", 1), Quorum::One, PutRecordContext::Republish);
    assert!(matches!(finish(&mut kad, id), PollOutput::AskLookups));
    assert!(matches!(progress(finish(&mut kad, id)).1, QueryResult::RepublishRecord(Err(_))));
}

#[test]
fn queued_events_come_first() {
    let mut kad = kademlia();
    let peer = PeerId::random();
    kad.add_address(&peer, addr(1));
    match kad.poll(PollInput::Begin) {
        PollOutput::Ready(ToSwarm::GenerateEvent(Event::RoutingUpdated { peer: p, .. })) => {
            assert_eq!(p, peer)
        }
        other => panic!("unexpected {:?}", other),
    }
    assert!(matches!(kad.poll(PollInput::Begin), PollOutput::AskLookups));
    assert!(matches!(kad.poll(PollInput::Lookup(LookupStep::Idle)), PollOutput::Pending));
}

////////////////////////////////////////////////////////////////////////////////
// Texts

#[test]
fn lists_are_joined() {
    assert_eq!(to_comma_separated_list::<Multiaddr>(&vec![]), "");
    assert_eq!(to_comma_separated_list(&vec![addr(1)]), "/memory/1");
    assert_eq!(to_comma_separated_list(&vec![addr(1), addr(2)]), "/memory/1, /memory/2");
}

#[test]
fn a_failed_quorum_is_described() {
    let error =
        GetRecordError::QuorumFailed { key: key("k"), records: vec![], quorum: nonzero(105) };
    assert_eq!(error.message(), "the quorum failed; needed 105 peers");
    assert!(error.into_key().equals(&key("k")));
}
