use libp2p_behaviours::autonat::Behaviour;
use libp2p_behaviours::autonat::DialBackCommand;
use libp2p_behaviours::autonat::DialBackStatus;
use libp2p_behaviours::autonat::Event;
use libp2p_behaviours::autonat::HandlerEvent;
use libp2p_behaviours::autonat::NewHandler;
use libp2p_behaviours::swarm::DialError;
use libp2p_behaviours::swarm::FromSwarm;
use libp2p_behaviours::swarm::ToSwarm;
use libp2p_core::Multiaddr;
use libp2p_identity::PeerId;
use libp2p_swarm::dial_opts::DialOpts;
use libp2p_swarm::ConnectionId;
use rand_core::OsRng;

fn addr(port: u16) -> Multiaddr {
    format!("/ip4/127.0.0.1/tcp/{}", port).parse().unwrap()
}

fn command(port: u16) -> DialBackCommand<u32> {
    DialBackCommand { addr: addr(port), nonce: 7, back_channel: 42 }
}

fn next_dial<R>(behaviour: &mut Behaviour<R, u32>) -> DialOpts {
    match behaviour.poll() {
        Some(ToSwarm::Dial { opts }) => opts,
        other => panic!("expected a dial, got {:?}", other),
    }
}

fn failure(connection_id: ConnectionId) -> FromSwarm {
    FromSwarm::DialFailure { peer_id: None, connection_id, error: DialError::Aborted }
}

#[test]
fn a_new_behaviour_has_nothing_to_do() {
    let mut behaviour: Behaviour<OsRng, u32> = Behaviour::default();
    assert!(behaviour.poll().is_none());
    assert!(behaviour.dialing_dial_back.entries.is_empty());
}

#[test]
fn inbound_connections_take_requests() {
    let client = PeerId::random();
    let mut behaviour: Behaviour<u8, u32> = Behaviour::new(9);
    match behaviour.handle_established_inbound_connection(client, &addr(1)) {
        NewHandler::DialRequest { client: c, observed_multiaddr, rng } => {
            assert_eq!(c, client);
            assert_eq!(observed_multiaddr, addr(1));
            assert_eq!(rng, 9);
        }
        other => panic!("unexpected {:?}", other),
    }
}

#[test]
fn a_command_is_dialed_from_a_new_port() {
    let client = PeerId::random();
    let mut behaviour: Behaviour<u8, u32> = Behaviour::new(0);
    behaviour.on_connection_handler_event(client, HandlerEvent::DialBack(command(5)));
    let opts = next_dial(&mut behaviour);
    assert_eq!(opts.get_peer_id(), Some(client));
    let text = format!("{:?}", opts);
    assert!(text.contains("/ip4/127.0.0.1/tcp/5"));
    assert!(text.contains("port_use: New"));
    assert!(text.contains("condition: Always"));
    assert!(text.contains("role_override: Dialer"));
    assert!(text.contains("extend_addresses_through_behaviour: false"));
    assert!(behaviour.poll().is_none());
}

#[test]
fn the_connection_gets_the_command() {
    let mut behaviour: Behaviour<u8, u32> = Behaviour::new(0);
    behaviour.on_connection_handler_event(PeerId::random(), HandlerEvent::DialBack(command(5)));
    let connection = next_dial(&mut behaviour).connection_id();
    match behaviour.handle_established_outbound_connection(connection) {
        NewHandler::DialBack(cmd) => {
            assert_eq!(cmd.addr, addr(5));
            assert_eq!(cmd.nonce, 7);
            assert_eq!(cmd.back_channel, 42);
        }
        other => panic!("unexpected {:?}", other),
    }
    assert!(behaviour.on_swarm_event(failure(connection)).is_none());
    let again = behaviour.handle_established_outbound_connection(connection);
    assert!(matches!(again, NewHandler::Dummy));
}

#[test]
fn a_failed_dial_is_answered_once() {
    let mut behaviour: Behaviour<u8, u32> = Behaviour::new(0);
    behaviour.on_connection_handler_event(PeerId::random(), HandlerEvent::DialBack(command(5)));
    let connection = next_dial(&mut behaviour).connection_id();
    assert!(behaviour.on_swarm_event(FromSwarm::Other).is_none());
    assert!(behaviour.on_swarm_event(failure(ConnectionId::new_unchecked(1_000_000))).is_none());
    let answer = behaviour.on_swarm_event(failure(connection)).unwrap();
    assert_eq!(answer.back_channel, 42);
    assert_eq!(answer.status, Err(DialBackStatus::DialErr));
    assert!(behaviour.on_swarm_event(failure(connection)).is_none());
}

#[test]
fn reports_come_out_in_order() {
    let client = PeerId::random();
    let mut behaviour: Behaviour<u8, u32> = Behaviour::new(0);
    behaviour.on_connection_handler_event(client, HandlerEvent::DialBackDone(Ok(())));
    behaviour.on_connection_handler_event(
        client,
        HandlerEvent::DialBackDone(Err(DialBackStatus::DialBackErr)),
    );
    assert!(behaviour.poll().is_none());
    for amount in [1, 2] {
        behaviour.on_connection_handler_event(
            client,
            HandlerEvent::StatusUpdate(Event {
                all_addrs: vec![addr(1), addr(2)],
                tested_addr: addr(2),
                client,
                data_amount: amount,
                result: Ok(()),
            }),
        );
    }
    for amount in [1, 2] {
        match behaviour.poll() {
            Some(ToSwarm::GenerateEvent(event)) => {
                assert_eq!(event.data_amount, amount);
                assert_eq!(event.tested_addr, addr(2));
                assert!(event.result.is_ok());
            }
            other => panic!("unexpected {:?}", other),
        }
    }
}
