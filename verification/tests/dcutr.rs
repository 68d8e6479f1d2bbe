use libp2p_behaviours::dcutr::behaviour::Behaviour;
use libp2p_behaviours::dcutr::behaviour::Command;
use libp2p_behaviours::dcutr::behaviour::Config;
use libp2p_behaviours::dcutr::behaviour::Event;
use libp2p_behaviours::dcutr::behaviour::HandlerEvent;
use libp2p_behaviours::dcutr::behaviour::HandshakeError;
use libp2p_behaviours::dcutr::behaviour::InnerError;
use libp2p_behaviours::dcutr::behaviour::NewHandler;
use libp2p_behaviours::dcutr::behaviour::Poll;
use libp2p_behaviours::swarm::ConnectedPoint;
use libp2p_behaviours::swarm::DialError;
use libp2p_behaviours::swarm::Endpoint;
use libp2p_behaviours::swarm::FromSwarm;
use libp2p_behaviours::swarm::NotifyHandler;
use libp2p_behaviours::swarm::PortUse;
use libp2p_behaviours::swarm::ToSwarm;
use libp2p_behaviours::time::Duration;
use libp2p_behaviours::time::Moment;
use libp2p_core::multiaddr::Protocol;
use libp2p_core::Multiaddr;
use libp2p_identity::PeerId;
use libp2p_swarm::dial_opts::DialOpts;
use libp2p_swarm::ConnectionId;

fn peer_id() -> PeerId {
    PeerId::random()
}

fn memory_addr(port: u64) -> Multiaddr {
    Multiaddr::empty().with(Protocol::Memory(port))
}

#[test]
fn add_address_appends_p2p() {
    let me = peer_id();
    let mut behaviour = Behaviour::new(me);

    let addr = memory_addr(1000);
    behaviour.add_address(addr.clone());

    let addrs = behaviour.observed_addresses();
    assert_eq!(addrs.len(), 1);
    let mut expected = addr;
    expected.push(Protocol::P2p(me));
    assert_eq!(addrs[0], expected);
}

#[test]
fn add_address_deduplicates() {
    let me = peer_id();
    let mut behaviour = Behaviour::new(me);

    let addr = memory_addr(1000);
    behaviour.add_address(addr.clone());
    behaviour.add_address(addr.clone());

    assert_eq!(behaviour.observed_addresses().len(), 1);
}

#[test]
fn remove_address_works() {
    let me = peer_id();
    let mut behaviour = Behaviour::new(me);

    let addr1 = memory_addr(1000);
    let addr2 = memory_addr(2000);
    behaviour.add_address(addr1.clone());
    behaviour.add_address(addr2.clone());
    assert_eq!(behaviour.observed_addresses().len(), 2);

    behaviour.remove_address(addr1);

    let remaining = behaviour.observed_addresses();
    assert_eq!(remaining.len(), 1);
    let mut expected_addr2 = addr2;
    expected_addr2.push(Protocol::P2p(me));
    assert_eq!(remaining[0], expected_addr2);
}

#[test]
fn relayed_addresses_are_not_stored() {
    let me = peer_id();
    let mut behaviour = Behaviour::new(me);

    let relayed = Multiaddr::empty()
        .with(Protocol::Memory(1000))
        .with(Protocol::P2p(PeerId::random()))
        .with(Protocol::P2pCircuit);

    behaviour.add_address(relayed);
    assert!(behaviour.observed_addresses().is_empty());
}

#[test]
fn removing_a_relayed_address_leaves_the_others() {
    let mut behaviour = Behaviour::new(peer_id());
    behaviour.add_address(memory_addr(1000));
    let before = behaviour.observed_addresses();

    let relayed = relayed_addr();
    behaviour.add_address(relayed.clone());
    behaviour.remove_address(relayed);

    assert_eq!(behaviour.observed_addresses(), before);
}

#[test]
fn empty_behaviour_returns_no_addresses() {
    let me = peer_id();
    let behaviour = Behaviour::new(me);
    assert!(behaviour.observed_addresses().is_empty());
}

fn quic_addr(port: u16) -> Multiaddr {
    format!("/ip4/127.0.0.1/udp/{}/quic-v1", port).parse().unwrap()
}

fn tcp_addr(port: u16) -> Multiaddr {
    format!("/ip4/127.0.0.1/tcp/{}", port).parse().unwrap()
}

fn relayed_addr() -> Multiaddr {
    memory_addr(7).with(Protocol::P2p(peer_id())).with(Protocol::P2pCircuit)
}

fn at(millis: u128) -> Moment {
    Moment { nanos: millis * 1_000_000 }
}

fn next_dial(behaviour: &mut Behaviour, now: Moment) -> DialOpts {
    match behaviour.poll(now) {
        Poll::Ready(ToSwarm::Dial { opts }) => opts,
        other => panic!("expected a dial, got {:?}", other),
    }
}

fn next_event(behaviour: &mut Behaviour, now: Moment) -> Event {
    match behaviour.poll(now) {
        Poll::Ready(ToSwarm::GenerateEvent(event)) => event,
        other => panic!("expected an event, got {:?}", other),
    }
}

fn is_idle(behaviour: &mut Behaviour, now: Moment) -> bool {
    matches!(behaviour.poll(now), Poll::Pending(None))
}

fn failure(peer: PeerId, connection_id: ConnectionId) -> FromSwarm {
    FromSwarm::DialFailure { peer_id: Some(peer), connection_id, error: DialError::Aborted }
}

#[test]
fn burst_configuration() {
    let config = Config::default();
    assert_eq!(config.hole_punch_burst_count, 5);
    assert_eq!(config.hole_punch_burst_interval, Duration::from_millis(20));
    assert_eq!(config.with_hole_punch_burst_count(0).hole_punch_burst_count, 1);
    assert_eq!(config.with_hole_punch_burst_count(9).hole_punch_burst_count, 9);
    let slow = config.with_hole_punch_burst_interval(Duration::from_secs(1));
    assert_eq!(slow.hole_punch_burst_interval, Duration { secs: 1, nanos: 0 });
    assert_eq!(slow.hole_punch_burst_count, 5);
}

#[test]
fn qualified_address_is_kept() {
    let me = peer_id();
    let mut behaviour = Behaviour::new(me);
    let qualified = memory_addr(1000).with(Protocol::P2p(me));
    behaviour.add_address(qualified.clone());
    behaviour.add_address(memory_addr(1000));
    assert_eq!(behaviour.observed_addresses(), vec![qualified]);
    behaviour.remove_address(memory_addr(1000));
    assert!(behaviour.observed_addresses().is_empty());
}

#[test]
fn foreign_peer_is_not_taken_for_own() {
    let me = peer_id();
    let other = peer_id();
    let mut behaviour = Behaviour::new(me);
    let foreign = memory_addr(1).with(Protocol::P2p(other));
    behaviour.add_address(foreign.clone());
    assert_eq!(behaviour.observed_addresses(), vec![foreign.with(Protocol::P2p(me))]);
}

#[test]
fn last_candidate_takes_the_place_of_a_removed_one() {
    let me = peer_id();
    let mut behaviour = Behaviour::new(me);
    for port in [1, 2, 3] {
        behaviour.add_address(memory_addr(port));
    }
    behaviour.remove_address(memory_addr(1));
    let expected: Vec<Multiaddr> = vec![
        memory_addr(3).with(Protocol::P2p(me)),
        memory_addr(2).with(Protocol::P2p(me)),
    ];
    assert_eq!(behaviour.observed_addresses(), expected);
    behaviour.remove_address(memory_addr(9));
    assert_eq!(behaviour.observed_addresses(), expected);
}

#[test]
fn relayed_connections_get_a_handler() {
    let me = peer_id();
    let mut behaviour = Behaviour::new(me);
    behaviour.add_address(memory_addr(1));
    let relayed = relayed_addr();
    let remote = memory_addr(8);
    match behaviour.handle_established_inbound_connection(
        ConnectionId::new_unchecked(1),
        peer_id(),
        &relayed,
        &remote,
    ) {
        NewHandler::Relayed { endpoint, holepunch_candidates, command } => {
            assert_eq!(holepunch_candidates, vec![memory_addr(1).with(Protocol::P2p(me))]);
            assert!(matches!(command, Some(Command::Connect)));
            assert_eq!(endpoint.get_remote_address(), &remote);
            assert!(endpoint.is_relayed());
        }
        other => panic!("unexpected {:?}", other),
    }
    match behaviour.handle_established_outbound_connection(
        ConnectionId::new_unchecked(2),
        peer_id(),
        &relayed,
        Endpoint::Dialer,
        PortUse::New,
    ) {
        NewHandler::Relayed { endpoint, command, .. } => {
            assert!(command.is_none());
            assert_eq!(endpoint.get_remote_address(), &relayed);
        }
        other => panic!("unexpected {:?}", other),
    }
    assert!(behaviour.direct_connections.is_empty());
}

#[test]
fn tcp_is_dialed_once_and_quic_in_a_burst() {
    let remote = peer_id();
    let relayed = ConnectionId::new_unchecked(1);
    let config = Config::default().with_hole_punch_burst_count(3);
    let mut behaviour = Behaviour::with_config(peer_id(), config);
    behaviour.on_connection_handler_event(
        remote,
        relayed,
        HandlerEvent::OutboundConnectNegotiated {
            remote_addrs: vec![quic_addr(1), tcp_addr(2), quic_addr(3)],
        },
        at(0),
    );

    let tcp = format!("{:?}", next_dial(&mut behaviour, at(0)));
    assert!(tcp.contains("/ip4/127.0.0.1/tcp/2"));
    assert!(!tcp.contains("quic-v1"));
    assert!(tcp.contains("role_override: Listener"));
    assert!(tcp.contains("condition: Always"));
    assert!(tcp.contains("port_use: Reuse"));
    assert!(tcp.contains("extend_addresses_through_behaviour: false"));

    let first = next_dial(&mut behaviour, at(0));
    assert_eq!(first.get_peer_id(), Some(remote));
    let quic = format!("{:?}", first);
    assert!(quic.contains("udp/1/quic-v1") && quic.contains("udp/3/quic-v1"));
    assert!(!quic.contains("tcp"));

    match behaviour.poll(at(10)) {
        Poll::Pending(wake) => assert_eq!(wake, Some(at(20))),
        other => panic!("unexpected {:?}", other),
    }
    let second = next_dial(&mut behaviour, at(25));
    match behaviour.poll(at(25)) {
        Poll::Pending(wake) => assert_eq!(wake, Some(at(45))),
        other => panic!("unexpected {:?}", other),
    }
    let third = next_dial(&mut behaviour, at(45));
    assert!(is_idle(&mut behaviour, at(1000)));
    for opts in [&first, &second, &third] {
        assert_eq!(
            behaviour.direct_to_relayed_connections.get(&opts.connection_id()),
            Some(&relayed)
        );
    }
    assert_ne!(second.connection_id(), third.connection_id());
}

#[test]
fn dialer_keeps_its_role() {
    let remote = peer_id();
    let mut behaviour = Behaviour::new(peer_id());
    behaviour.on_connection_handler_event(
        remote,
        ConnectionId::new_unchecked(1),
        HandlerEvent::InboundConnectNegotiated { remote_addrs: vec![tcp_addr(2)] },
        at(0),
    );
    let dial = format!("{:?}", next_dial(&mut behaviour, at(0)));
    assert!(dial.contains("role_override: Dialer"));
    assert!(is_idle(&mut behaviour, at(1000)));
}

#[test]
fn success_is_told_once_and_ends_the_burst() {
    let remote = peer_id();
    let mut behaviour = Behaviour::new(peer_id());
    behaviour.on_connection_handler_event(
        remote,
        ConnectionId::new_unchecked(1),
        HandlerEvent::InboundConnectNegotiated { remote_addrs: vec![quic_addr(1)] },
        at(0),
    );
    let first = next_dial(&mut behaviour, at(0)).connection_id();
    let second = next_dial(&mut behaviour, at(20)).connection_id();
    for connection in [first, second] {
        let handler = behaviour.handle_established_outbound_connection(
            connection,
            remote,
            &quic_addr(1),
            Endpoint::Dialer,
            PortUse::Reuse,
        );
        assert!(matches!(handler, NewHandler::Direct));
    }
    let event = next_event(&mut behaviour, at(40));
    assert_eq!(event.remote_peer_id, remote);
    assert!(matches!(event.result, Ok(c) if c == first));
    assert!(is_idle(&mut behaviour, at(1000)));
    assert_eq!(behaviour.direct_connections.len(), 2);
}

#[test]
fn remote_dial_ends_an_attempt_too() {
    let remote = peer_id();
    let mut behaviour = Behaviour::new(peer_id());
    behaviour.on_connection_handler_event(
        remote,
        ConnectionId::new_unchecked(1),
        HandlerEvent::OutboundConnectNegotiated { remote_addrs: vec![quic_addr(1)] },
        at(0),
    );
    let own = next_dial(&mut behaviour, at(0)).connection_id();
    let inbound = ConnectionId::new_unchecked(900);
    behaviour.handle_established_inbound_connection(
        inbound,
        remote,
        &quic_addr(2),
        &quic_addr(1),
    );
    let event = next_event(&mut behaviour, at(0));
    assert!(matches!(event.result, Ok(c) if c == inbound));
    behaviour.handle_established_outbound_connection(
        own,
        remote,
        &quic_addr(1),
        Endpoint::Dialer,
        PortUse::Reuse,
    );
    assert!(is_idle(&mut behaviour, at(1000)));
}

#[test]
fn connections_without_an_attempt_are_not_reported() {
    let remote = peer_id();
    let mut behaviour = Behaviour::new(peer_id());
    behaviour.handle_established_inbound_connection(
        ConnectionId::new_unchecked(5),
        remote,
        &tcp_addr(1),
        &tcp_addr(2),
    );
    behaviour.handle_established_outbound_connection(
        ConnectionId::new_unchecked(6),
        remote,
        &tcp_addr(1),
        Endpoint::Dialer,
        PortUse::Reuse,
    );
    assert!(is_idle(&mut behaviour, at(0)));
}

#[test]
fn a_burst_of_one_is_a_single_dial() {
    let config = Config::default().with_hole_punch_burst_count(1);
    let mut behaviour = Behaviour::with_config(peer_id(), config);
    behaviour.on_connection_handler_event(
        peer_id(),
        ConnectionId::new_unchecked(1),
        HandlerEvent::InboundConnectNegotiated { remote_addrs: vec![quic_addr(1)] },
        at(0),
    );
    next_dial(&mut behaviour, at(0));
    assert!(is_idle(&mut behaviour, at(1000)));
}

#[test]
fn gives_up_after_three_attempts() {
    let remote = peer_id();
    let relayed = ConnectionId::new_unchecked(1);
    let mut behaviour = Behaviour::new(peer_id());
    for attempt in 1..=3 {
        behaviour.on_connection_handler_event(
            remote,
            relayed,
            HandlerEvent::OutboundConnectNegotiated { remote_addrs: vec![tcp_addr(1)] },
            at(0),
        );
        let connection = next_dial(&mut behaviour, at(0)).connection_id();
        behaviour.on_swarm_event(failure(remote, connection));
        if attempt < 3 {
            match behaviour.poll(at(0)) {
                Poll::Ready(ToSwarm::NotifyHandler {
                    peer_id,
                    handler: NotifyHandler::One(c),
                    event: Command::Connect,
                }) => {
                    assert_eq!(peer_id, remote);
                    assert_eq!(c, relayed);
                }
                other => panic!("unexpected {:?}", other),
            }
        } else {
            let event = next_event(&mut behaviour, at(0));
            let error = event.result.unwrap_err();
            assert!(matches!(error.inner, InnerError::AttemptsExceeded(3)));
            assert_eq!(
                error.message(),
                "Failed to hole-punch connection: Giving up after 3 dial attempts"
            );
        }
    }
}

#[test]
fn unknown_dial_failures_are_ignored() {
    let mut behaviour = Behaviour::new(peer_id());
    behaviour.on_swarm_event(failure(peer_id(), ConnectionId::new_unchecked(1)));
    behaviour.on_swarm_event(FromSwarm::DialFailure {
        peer_id: None,
        connection_id: ConnectionId::new_unchecked(1),
        error: DialError::NoAddresses,
    });
    behaviour.on_swarm_event(FromSwarm::Other);
    assert!(is_idle(&mut behaviour, at(0)));
}

#[test]
fn failed_handshakes_are_reported() {
    let remote = peer_id();
    let mut behaviour = Behaviour::new(peer_id());
    behaviour.on_connection_handler_event(
        remote,
        ConnectionId::new_unchecked(1),
        HandlerEvent::InboundConnectFailed { error: HandshakeError { reason: "in".to_string() } },
        at(0),
    );
    behaviour.on_connection_handler_event(
        remote,
        ConnectionId::new_unchecked(1),
        HandlerEvent::OutboundConnectFailed { error: HandshakeError { reason: "out".to_string() } },
        at(0),
    );
    let inbound = next_event(&mut behaviour, at(0)).result.unwrap_err();
    assert_eq!(inbound.message(), "Failed to hole-punch connection: Inbound stream error: in");
    let outbound = next_event(&mut behaviour, at(0)).result.unwrap_err();
    assert_eq!(outbound.inner.message(), "Outbound stream error: out");
    assert!(behaviour.outgoing_direct_connection_attempts.entries.is_empty());
}

#[test]
fn failed_handshakes_are_not_counted() {
    let remote = peer_id();
    let relayed = ConnectionId::new_unchecked(1);
    let mut behaviour = Behaviour::new(peer_id());
    behaviour.outgoing_direct_connection_attempts.insert((relayed, remote), u8::MAX);
    behaviour.on_connection_handler_event(
        remote,
        relayed,
        HandlerEvent::InboundConnectFailed { error: HandshakeError { reason: "in".to_string() } },
        at(0),
    );
    assert!(next_event(&mut behaviour, at(0)).result.is_err());
    assert_eq!(
        behaviour.outgoing_direct_connection_attempts.get(&(relayed, remote)),
        Some(&u8::MAX)
    );
}

#[test]
fn idle_polling_keeps_the_bursts_that_go_on() {
    let config = Config::default();
    let mut behaviour = Behaviour::with_config(peer_id(), config);
    let peers = [peer_id(), peer_id(), peer_id()];
    for (i, peer) in peers.iter().enumerate() {
        behaviour.on_connection_handler_event(
            *peer,
            ConnectionId::new_unchecked(i),
            HandlerEvent::InboundConnectNegotiated { remote_addrs: vec![quic_addr(1)] },
            at(0),
        );
        next_dial(&mut behaviour, at(0));
    }
    behaviour.handle_established_inbound_connection(
        ConnectionId::new_unchecked(900),
        peers[0],
        &quic_addr(2),
        &quic_addr(3),
    );
    next_event(&mut behaviour, at(0));

    match behaviour.poll(at(19)) {
        Poll::Pending(wake) => assert_eq!(wake, Some(at(20))),
        other => panic!("expected nothing, got {:?}", other),
    }
    let left: Vec<PeerId> = behaviour.pending_bursts.iter().map(|b| b.peer_id).collect();
    assert_eq!(left.len(), 2);
    assert!(left.contains(&peers[1]) && left.contains(&peers[2]));
}

#[test]
fn closed_connections_are_forgotten() {
    let remote = peer_id();
    let connection_id = ConnectionId::new_unchecked(5);
    let mut behaviour = Behaviour::new(peer_id());
    behaviour.handle_established_inbound_connection(
        connection_id,
        remote,
        &tcp_addr(1),
        &tcp_addr(2),
    );
    let closed = |local_addr: Multiaddr| FromSwarm::ConnectionClosed {
        peer_id: remote,
        connection_id,
        endpoint: ConnectedPoint::Listener { local_addr, send_back_addr: tcp_addr(2) },
        remaining_established: 0,
    };
    behaviour.on_swarm_event(closed(relayed_addr()));
    assert_eq!(behaviour.direct_connections.len(), 1);
    behaviour.on_swarm_event(closed(tcp_addr(1)));
    assert!(behaviour.direct_connections.is_empty());
}
