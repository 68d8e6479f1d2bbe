//! Laws on what an attempt dials, when it does, and what comes of it.

use libp2p_core::Multiaddr;
use libp2p_identity::PeerId;
use libp2p_swarm::ConnectionId;
use vstd::prelude::*;
use vstd::seq_lib::to_multiset_contains;

use crate::assoc::entries_insert;
use crate::assoc::entries_map;
use crate::assoc::entries_remove;
use crate::assoc::has_key;
use crate::assoc::key_index;
use crate::assoc::lemma_entries_insert;
use crate::assoc::lemma_entries_remove;
use crate::assoc::lemma_filtered;
use crate::assoc::lemma_insert_get;
use crate::assoc::lemma_with_item;
use crate::assoc::lemma_without_item;
use crate::dcutr::behaviour::candidates_with;
use crate::dcutr::behaviour::hole_punch_started;
use crate::dcutr::behaviour::inbound_established;
use crate::dcutr::behaviour::news_handled;
use crate::dcutr::behaviour::next_due;
use crate::dcutr::behaviour::not_over_quic;
use crate::dcutr::behaviour::outbound_established;
use crate::dcutr::behaviour::over_quic;
use crate::dcutr::behaviour::polled;
use crate::dcutr::behaviour::reported;
use crate::dcutr::behaviour::Behaviour;
use crate::dcutr::behaviour::Command;
use crate::dcutr::behaviour::Event;
use crate::dcutr::behaviour::HandlerEvent;
use crate::dcutr::behaviour::InnerError;
use crate::dcutr::behaviour::NewHandler;
use crate::dcutr::behaviour::PendingBurst;
use crate::dcutr::behaviour::Poll;
use crate::dcutr::laws::law_burst_fires_in_progress;
use crate::dcutr::laws::law_idle_poll_leaves_live_bursts;
use crate::dcutr::laws::law_scan_keeps_live_bursts;
use crate::net::components;
use crate::net::dial_connection;
use crate::net::dial_view;
use crate::net::p2p_appended;
use crate::net::Component;
use crate::swarm::ConnectedPoint;
use crate::swarm::Endpoint;
use crate::swarm::FromSwarm;
use crate::swarm::NotifyHandler;
use crate::swarm::PeerCondition;
use crate::swarm::PortUse;
use crate::swarm::ToSwarm;
use crate::time::MAX_ELAPSED;
use crate::time::Moment;

verus! {

/// Whether an address leads over QUIC: one of its components is of that protocol.
pub open spec fn has_quic(a: Multiaddr) -> bool {
    components(a).contains(Component::Quic) || components(a).contains(Component::QuicV1)
}

/// Whether an address leads through a relay: one of its components says so.
pub open spec fn has_circuit(a: Multiaddr) -> bool {
    components(a).contains(Component::P2pCircuit)
}

/// Whether a request is a dial that tries an address.
pub open spec fn tries(request: ToSwarm<Event, Command>, a: Multiaddr) -> bool {
    request matches ToSwarm::Dial { opts } && dial_view(opts).addresses.contains(a)
}

/// Whether a request dials a peer in an attempt: just the given addresses, whatever connections
/// there are, and in the given role.
pub open spec fn punches(
    request: ToSwarm<Event, Command>,
    peer: PeerId,
    as_listener: bool,
) -> bool {
    request matches ToSwarm::Dial { opts } && {
        let dial = dial_view(opts);
        &&& dial.peer == peer
        &&& dial.condition == PeerCondition::Always
        &&& !dial.extend_addresses
        &&& dial.as_listener == as_listener
        &&& !dial.new_port
        &&& dial.addresses.len() > 0
    }
}

/// The role that the local node takes after a handshake: that of the listener if it started the
/// handshake.
pub open spec fn takes_listener_role(event: HandlerEvent) -> bool {
    event is OutboundConnectNegotiated
}

/// The addresses that a handshake has negotiated, if it has.
pub open spec fn negotiated_addresses(event: HandlerEvent) -> Option<Seq<Multiaddr>> {
    match event {
        HandlerEvent::InboundConnectNegotiated { remote_addrs } => Some(remote_addrs@),
        HandlerEvent::OutboundConnectNegotiated { remote_addrs } => Some(remote_addrs@),
        _ => None,
    }
}

/// The parts of an address say whether it leads over QUIC.
proof fn lemma_has_quic(a: Multiaddr)
    ensures
        over_quic()(a) == has_quic(a),
        not_over_quic()(a) == !has_quic(a),
{
    let parts = components(a);
    if has_quic(a) {
        if parts.contains(Component::Quic) {
            assert(parts[parts.index_of(Component::Quic)] is Quic);
        } else {
            assert(parts[parts.index_of(Component::QuicV1)] is QuicV1);
        }
    }
    if over_quic()(a) {
        let i = choose|i: int|
            0 <= i < parts.len() && (#[trigger] parts[i] is QuicV1 || parts[i] is Quic);
        assert(parts.contains(parts[i]));
    }
}

/// Every address that was negotiated is dialed at once, and no other is: it is among the
/// addresses of one of the dials that are queued.
pub proof fn law_negotiated_addresses_are_dialed(
    before: Behaviour,
    after: Behaviour,
    source: PeerId,
    relayed: ConnectionId,
    event: HandlerEvent,
    now: Moment,
    a: Multiaddr,
)
    requires
        reported(before, after, source, relayed, event, now),
        negotiated_addresses(event) is Some,
    ensures
        negotiated_addresses(event)->0.contains(a) <==> exists|i: int|
            before.queued_events@.len() <= i < after.queued_events@.len() && tries(
                #[trigger] after.queued_events@[i],
                a,
            ),
{
    let addresses = negotiated_addresses(event)->0;
    let mid = lemma_started(before, after, source, relayed, event, now);
    let tcp = addresses.filter(not_over_quic());
    let quic = addresses.filter(over_quic());
    let events = after.queued_events@;
    let n = before.queued_events@.len() as int;
    let m = if tcp.len() > 0 {
        n + 1
    } else {
        n
    };
    lemma_filtered(addresses, not_over_quic(), a);
    lemma_filtered(addresses, over_quic(), a);
    lemma_has_quic(a);
    if tcp.contains(a) {
        assert(tries(events[n], a));
    }
    if quic.contains(a) {
        assert(tries(events[m], a));
    }
    if exists|i: int| n <= i < events.len() && tries(#[trigger] events[i], a) {
        let i = choose|i: int| n <= i < events.len() && tries(#[trigger] events[i], a);
        assert(i == n || i == m);
    }
}

/// A completed handshake starts the dials of an attempt.
proof fn lemma_started(
    before: Behaviour,
    after: Behaviour,
    source: PeerId,
    relayed: ConnectionId,
    event: HandlerEvent,
    now: Moment,
) -> (mid: Behaviour)
    requires
        reported(before, after, source, relayed, event, now),
        negotiated_addresses(event) is Some,
    ensures
        hole_punch_started(
            mid,
            after,
            source,
            negotiated_addresses(event)->0,
            relayed,
            takes_listener_role(event),
            now,
        ),
        mid == (Behaviour {
            holepunch_in_progress: mid.holepunch_in_progress,
            outgoing_direct_connection_attempts: mid.outgoing_direct_connection_attempts,
            ..before
        }),
{
    let addresses = negotiated_addresses(event)->0;
    choose|mid: Behaviour|
        hole_punch_started(
            mid,
            after,
            source,
            addresses,
            relayed,
            takes_listener_role(event),
            now,
        ) && mid == (Behaviour {
            holepunch_in_progress: mid.holepunch_in_progress,
            outgoing_direct_connection_attempts: mid.outgoing_direct_connection_attempts,
            ..before
        })
}

/// What an attempt queues are dials of its peer, behind what was queued before. Each is for the
/// relayed connection that is to be replaced, and is in the role that the handshake asks for.
/// None mixes addresses over QUIC with others, and no address is in two of them.
pub proof fn law_attempt_dials_its_peer(
    before: Behaviour,
    after: Behaviour,
    source: PeerId,
    relayed: ConnectionId,
    event: HandlerEvent,
    now: Moment,
    i: int,
    j: int,
    a: Multiaddr,
    b: Multiaddr,
)
    requires
        before.wf(),
        reported(before, after, source, relayed, event, now),
        negotiated_addresses(event) is Some,
        before.queued_events@.len() <= i < after.queued_events@.len(),
    ensures
        before.queued_events@.is_prefix_of(after.queued_events@),
        punches(after.queued_events@[i], source, takes_listener_role(event)),
        ({
            let entries = after.direct_to_relayed_connections.entries@;
            let connection = dial_connection(after.queued_events@[i]->opts);
            has_key(entries, connection) && entries[key_index(entries, connection)].1 == relayed
        }),
        tries(after.queued_events@[i], a) && tries(after.queued_events@[i], b) ==> has_quic(a)
            == has_quic(b),
        before.queued_events@.len() <= j < after.queued_events@.len() && i != j ==> !(tries(
            after.queued_events@[i],
            a,
        ) && tries(after.queued_events@[j], a)),
{
    let addresses = negotiated_addresses(event)->0;
    let mid = lemma_started(before, after, source, relayed, event, now);
    let tcp = addresses.filter(not_over_quic());
    let quic = addresses.filter(over_quic());
    let events = after.queued_events@;
    let n = before.queued_events@.len() as int;
    assert(events.subrange(0, n) =~= events.take(n));
    lemma_filtered(addresses, not_over_quic(), a);
    lemma_filtered(addresses, over_quic(), a);
    lemma_filtered(addresses, not_over_quic(), b);
    lemma_filtered(addresses, over_quic(), b);
    lemma_has_quic(a);
    lemma_has_quic(b);
    let first = before.direct_to_relayed_connections.entries@;
    let c0 = dial_connection(events[n]->opts);
    let between = if tcp.len() > 0 {
        entries_insert(first, c0, relayed)
    } else {
        first
    };
    lemma_entries_insert(first, c0, relayed);
    lemma_insert_get(first, c0, relayed, c0);
    if quic.len() > 0 {
        let c1 = dial_connection(events.last()->opts);
        lemma_insert_get(between, c1, relayed, c1);
        lemma_insert_get(between, c1, relayed, c0);
    }
}

/// An attempt over QUIC goes on with a burst: what is left of it has the addresses over QUIC and
/// no other, the first dial is counted, and the next is due after the interval. Where bursts are
/// disabled, or no address leads over QUIC, nothing is left. Earlier bursts stay as they are.
pub proof fn law_burst_is_remembered(
    before: Behaviour,
    after: Behaviour,
    source: PeerId,
    relayed: ConnectionId,
    event: HandlerEvent,
    now: Moment,
    a: Multiaddr,
)
    requires
        reported(before, after, source, relayed, event, now),
        negotiated_addresses(event) is Some,
        now.nanos <= MAX_ELAPSED,
    ensures
        before.pending_bursts@.is_prefix_of(after.pending_bursts@),
        after.pending_bursts@.len() <= before.pending_bursts@.len() + 1,
        negotiated_addresses(event)->0.contains(a) && has_quic(a)
            && before.config.hole_punch_burst_count > 1 ==> after.pending_bursts@.len()
            > before.pending_bursts@.len(),
        after.pending_bursts@.len() > before.pending_bursts@.len() ==> {
            let burst = after.pending_bursts@.last();
            &&& burst.addresses@.contains(a) <==> negotiated_addresses(event)->0.contains(a)
                && has_quic(a)
            &&& burst.addresses@.len() > 0
            &&& burst.remaining + 1 == before.config.hole_punch_burst_count
            &&& burst.due.nanos == now.nanos + before.config.hole_punch_burst_interval@
            &&& burst.peer_id == source
            &&& burst.relayed_connection_id == relayed
            &&& burst.override_role == takes_listener_role(event)
            &&& burst.remaining > 0
        },
{
    let addresses = negotiated_addresses(event)->0;
    let mid = lemma_started(before, after, source, relayed, event, now);
    lemma_filtered(addresses, over_quic(), a);
    lemma_has_quic(a);
    let k = before.pending_bursts@.len() as int;
    assert(after.pending_bursts@.subrange(0, k) =~= after.pending_bursts@.take(k));
    if addresses.contains(a) && has_quic(a) {
        assert(addresses.filter(over_quic()).len() > 0);
    }
    let span = before.config.hole_punch_burst_interval;
    assert(span@ <= u64::MAX * 1_000_000_000 + u32::MAX);
}

/// A completed handshake is counted, and the attempt with its peer is in progress from then on.
/// Nothing is changed for other peers, and nothing of what is advertised or connected.
pub proof fn law_attempt_is_counted(
    before: Behaviour,
    after: Behaviour,
    source: PeerId,
    relayed: ConnectionId,
    event: HandlerEvent,
    now: Moment,
    other: PeerId,
    key: (ConnectionId, PeerId),
)
    requires
        before.wf(),
        reported(before, after, source, relayed, event, now),
        negotiated_addresses(event) is Some,
        has_key(before.outgoing_direct_connection_attempts.entries@, (relayed, source))
            ==> entries_map(before.outgoing_direct_connection_attempts.entries@)[(
            relayed,
            source,
        )] < u8::MAX,
    ensures
        after.holepunch_in_progress@.contains(other) <==> before.holepunch_in_progress@.contains(
            other,
        ) || other == source,
        ({
            let old_counts = entries_map(before.outgoing_direct_connection_attempts.entries@);
            let counts = entries_map(after.outgoing_direct_connection_attempts.entries@);
            &&& counts.contains_key((relayed, source))
            &&& counts[(relayed, source)] == (if old_counts.contains_key((relayed, source)) {
                old_counts[(relayed, source)] + 1
            } else {
                1
            })
            &&& key != (relayed, source) ==> {
                &&& counts.contains_key(key) <==> old_counts.contains_key(key)
                &&& counts.contains_key(key) ==> counts[key] == old_counts[key]
            }
        }),
        after.address_candidates == before.address_candidates,
        after.direct_connections == before.direct_connections,
        after.me == before.me,
        after.config == before.config,
{
    let entries = before.outgoing_direct_connection_attempts.entries@;
    lemma_with_item(before.holepunch_in_progress@, source);
    let counted = after.outgoing_direct_connection_attempts.entries@;
    let k = (relayed, source);
    if has_key(entries, k) {
        assert(entries_map(entries)[k] == entries[key_index(entries, k)].1);
    }
    assert(entries_map(entries).contains_key(k) == has_key(entries, k));
    let v = (if has_key(entries, k) {
        entries[key_index(entries, k)].1 + 1
    } else {
        1
    }) as u8;
    assert(counted == entries_insert(entries, k, v));
    lemma_entries_insert(entries, k, v);
    assert(entries_map(counted) == entries_map(entries).insert(k, v));
}

/// A failed handshake is told the application, with why it failed, and nothing else changes.
pub proof fn law_failed_handshake_is_told(
    before: Behaviour,
    after: Behaviour,
    source: PeerId,
    relayed: ConnectionId,
    event: HandlerEvent,
    now: Moment,
)
    requires
        reported(before, after, source, relayed, event, now),
        negotiated_addresses(event) is None,
    ensures
        after.queued_events@.len() == before.queued_events@.len() + 1,
        before.queued_events@.is_prefix_of(after.queued_events@),
        after.queued_events@.last() matches ToSwarm::GenerateEvent(e) && e.remote_peer_id == source
            && (e.result matches Err(err) && match event {
            HandlerEvent::InboundConnectFailed { error } => err.inner == InnerError::InboundError(
                error,
            ),
            HandlerEvent::OutboundConnectFailed { error } => err.inner
                == InnerError::OutboundError(error),
            _ => false,
        }),
        after == (Behaviour { queued_events: after.queued_events, ..before }),
{
    let n = before.queued_events@.len() as int;
    assert(after.queued_events@.subrange(0, n) =~= after.queued_events@.drop_last());
}

/// What is queued is yielded in order: the first comes out, and the others stay as they are.
pub proof fn law_queue_is_yielded_in_order(
    before: Behaviour,
    after: Behaviour,
    now: Moment,
    r: Poll,
)
    requires
        polled(before, after, now, r),
        before.queued_events@.len() > 0,
    ensures
        r matches Poll::Ready(request) && before.queued_events@ == seq![request]
            + after.queued_events@,
        after == (Behaviour { queued_events: after.queued_events, ..before }),
{
    assert(before.queued_events@ =~= seq![before.queued_events@[0]] + after.queued_events@);
}

/// If nothing is queued, and a burst has dials left, is due, and its attempt is in progress,
/// polling yields a dial.
pub proof fn law_due_burst_is_dialed(
    before: Behaviour,
    after: Behaviour,
    now: Moment,
    r: Poll,
    k: int,
)
    requires
        polled(before, after, now, r),
        before.queued_events@.len() == 0,
        0 <= k < before.pending_bursts@.len(),
        before.pending_bursts@[k].remaining > 0,
        before.holepunch_in_progress@.contains(before.pending_bursts@[k].peer_id),
        before.pending_bursts@[k].due.nanos <= now.nanos,
    ensures
        r matches Poll::Ready(request) && request is Dial,
{
    let bursts = before.pending_bursts@;
    let in_progress = before.holepunch_in_progress@;
    let b = bursts[k];
    law_scan_keeps_live_bursts(bursts, in_progress, now, b);
    let (left, due) = next_due(bursts, 0, in_progress, now);
    to_multiset_contains(bursts, b);
    to_multiset_contains(left, b);
    if due is None {
        let i = left.index_of(b);
        assert(now.nanos < left[i].due.nanos);
    }
}

/// A dial that polling yields where nothing was queued is that of a burst: its peer and its
/// addresses, in its role, for its relayed connection. The burst had dials left, was due, and
/// its attempt is in progress. It has one dial less from then on, the next after the interval.
pub proof fn law_burst_dial_is_its_own(
    before: Behaviour,
    after: Behaviour,
    now: Moment,
    request: ToSwarm<Event, Command>,
) -> (b: PendingBurst)
    requires
        before.wf(),
        polled(before, after, now, Poll::Ready(request)),
        before.queued_events@.len() == 0,
        now.nanos <= MAX_ELAPSED,
    ensures
        before.pending_bursts@.contains(b),
        b.remaining > 0,
        b.due.nanos <= now.nanos,
        before.holepunch_in_progress@.contains(b.peer_id),
        request is Dial,
        ({
            let dial = dial_view(request->opts);
            let entries = after.direct_to_relayed_connections.entries@;
            let connection = dial_connection(request->opts);
            &&& dial.peer == b.peer_id
            &&& dial.addresses == b.addresses@
            &&& dial.condition == PeerCondition::Always
            &&& !dial.extend_addresses
            &&& !dial.new_port
            &&& dial.as_listener == b.override_role
            &&& has_key(entries, connection)
            &&& entries[key_index(entries, connection)].1 == b.relayed_connection_id
        }),
        exists|i: int|
            0 <= i < after.pending_bursts@.len() && {
                let left = #[trigger] after.pending_bursts@[i];
                &&& left.remaining + 1 == b.remaining
                &&& left.peer_id == b.peer_id
                &&& left.addresses == b.addresses
                &&& left.relayed_connection_id == b.relayed_connection_id
                &&& left.override_role == b.override_role
                &&& left.remaining > 0 ==> left.due.nanos == now.nanos
                    + before.config.hole_punch_burst_interval@
            },
        after.holepunch_in_progress == before.holepunch_in_progress,
        after.outgoing_direct_connection_attempts == before.outgoing_direct_connection_attempts,
{
    let bursts = before.pending_bursts@;
    let in_progress = before.holepunch_in_progress@;
    let (left, due) = next_due(bursts, 0, in_progress, now);
    law_burst_fires_in_progress(bursts, 0, in_progress, now);
    let i = due->0;
    let b = left[i];
    law_scan_keeps_live_bursts(bursts, in_progress, now, b);
    to_multiset_contains(left, b);
    assert(left.contains(b));
    to_multiset_contains(bursts, b);
    lemma_insert_get(
        before.direct_to_relayed_connections.entries@,
        dial_connection(request->opts),
        b.relayed_connection_id,
        dial_connection(request->opts),
    );
    let span = before.config.hole_punch_burst_interval;
    assert(span@ <= u64::MAX * 1_000_000_000 + u32::MAX);
    let fired = after.pending_bursts@[i];
    assert(after.pending_bursts@.len() == left.len());
    b
}

/// A direct connection to a peer with which an attempt is in progress ends the attempt: the
/// application is told of the connection, once, and the attempt is over. A connection that the
/// local node dialed does so only if it was dialed for the attempt.
pub proof fn law_direct_connection_ends_attempt(
    before: Behaviour,
    accepted: Behaviour,
    dialed: Behaviour,
    connection: ConnectionId,
    peer: PeerId,
    addr: Multiaddr,
    remote_addr: Multiaddr,
    role: Endpoint,
    port: PortUse,
    handlers: (NewHandler, NewHandler),
    other: PeerId,
)
    requires
        before.wf(),
        !has_circuit(addr),
        before.holepunch_in_progress@.contains(peer),
        inbound_established(before, accepted, connection, peer, addr, remote_addr, handlers.0),
        outbound_established(before, dialed, connection, peer, addr, role, port, handlers.1),
    ensures
        accepted.queued_events@.len() == before.queued_events@.len() + 1,
        before.queued_events@.is_prefix_of(accepted.queued_events@),
        accepted.queued_events@.last() matches ToSwarm::GenerateEvent(e) && e.remote_peer_id == peer
            && e.result == Ok::<ConnectionId, crate::dcutr::behaviour::Error>(connection),
        accepted.holepunch_in_progress@.contains(other) <==> other != peer
            && before.holepunch_in_progress@.contains(other),
        has_key(before.direct_to_relayed_connections.entries@, connection) ==> {
            &&& dialed.queued_events@ == accepted.queued_events@
            &&& dialed.holepunch_in_progress@ == accepted.holepunch_in_progress@
        },
        !has_key(before.direct_to_relayed_connections.entries@, connection) ==> {
            &&& dialed.queued_events@ == before.queued_events@
            &&& dialed.holepunch_in_progress@ == before.holepunch_in_progress@
        },
        handlers.0 is Direct,
        handlers.1 is Direct,
{
    lemma_without_item(before.holepunch_in_progress@, peer);
    lemma_has_circuit(addr);
    let n = before.queued_events@.len() as int;
    assert(accepted.queued_events@.subrange(0, n) =~= accepted.queued_events@.drop_last());
    if has_key(before.direct_to_relayed_connections.entries@, connection) {
        assert(dialed.queued_events@ =~= before.queued_events@.push(dialed.queued_events@.last()));
        assert(accepted.queued_events@ =~= before.queued_events@.push(
            accepted.queued_events@.last(),
        ));
    }
}

/// The parts of an address say whether it leads through a relay.
proof fn lemma_has_circuit(a: Multiaddr)
    ensures
        crate::net::spec_is_relayed(a) == has_circuit(a),
{
    let parts = components(a);
    if has_circuit(a) {
        assert(parts[parts.index_of(Component::P2pCircuit)] is P2pCircuit);
    }
    if crate::net::spec_is_relayed(a) {
        let i = choose|i: int| 0 <= i < parts.len() && #[trigger] parts[i] is P2pCircuit;
        assert(parts.contains(parts[i]));
    }
}

/// A direct connection that was dialed for an attempt ends the counting of its tries, and every
/// direct connection is remembered until it is closed.
pub proof fn law_direct_connections_are_remembered(
    before: Behaviour,
    accepted: Behaviour,
    dialed: Behaviour,
    connection: ConnectionId,
    peer: PeerId,
    addr: Multiaddr,
    remote_addr: Multiaddr,
    role: Endpoint,
    port: PortUse,
    handlers: (NewHandler, NewHandler),
    other: (PeerId, ConnectionId),
    key: (ConnectionId, PeerId),
)
    requires
        before.wf(),
        !has_circuit(addr),
        inbound_established(before, accepted, connection, peer, addr, remote_addr, handlers.0),
        outbound_established(before, dialed, connection, peer, addr, role, port, handlers.1),
    ensures
        accepted.direct_connections@.contains(other) <==> before.direct_connections@.contains(other)
            || other == (peer, connection),
        dialed.direct_connections@.contains(other) <==> before.direct_connections@.contains(other)
            || other == (peer, connection),
        accepted.outgoing_direct_connection_attempts
            == before.outgoing_direct_connection_attempts,
        ({
            let entries = before.direct_to_relayed_connections.entries@;
            let old_counts = before.outgoing_direct_connection_attempts.entries@;
            let counts = dialed.outgoing_direct_connection_attempts.entries@;
            has_key(counts, key) <==> has_key(old_counts, key) && !(has_key(entries, connection)
                && key == (entries[key_index(entries, connection)].1, peer))
        }),
        accepted.direct_to_relayed_connections == before.direct_to_relayed_connections,
        dialed.direct_to_relayed_connections == before.direct_to_relayed_connections,
        accepted.pending_bursts == before.pending_bursts,
        dialed.pending_bursts == before.pending_bursts,
        accepted.address_candidates == before.address_candidates,
        dialed.address_candidates == before.address_candidates,
{
    lemma_with_item(before.direct_connections@, (peer, connection));
    lemma_has_circuit(addr);
    let entries = before.direct_to_relayed_connections.entries@;
    let old_counts = before.outgoing_direct_connection_attempts.entries@;
    if has_key(entries, connection) {
        let k = (entries[key_index(entries, connection)].1, peer);
        lemma_entries_remove(old_counts, k);
        let left = entries_remove(old_counts, k);
        assert(entries_map(left).dom().contains(key) == has_key(left, key));
        assert(entries_map(old_counts).dom().contains(key) == has_key(old_counts, key));
        assert(entries_map(left) == entries_map(old_counts).remove(k));
    }
}

/// A relayed connection changes nothing, and gets a handler that advertises all candidates. The
/// side that was dialed starts the handshake at once, and the other waits for it.
pub proof fn law_relayed_connection_is_upgraded(
    before: Behaviour,
    accepted: Behaviour,
    dialed: Behaviour,
    connection: ConnectionId,
    peer: PeerId,
    addr: Multiaddr,
    remote_addr: Multiaddr,
    role: Endpoint,
    port: PortUse,
    handlers: (NewHandler, NewHandler),
)
    requires
        has_circuit(addr),
        inbound_established(before, accepted, connection, peer, addr, remote_addr, handlers.0),
        outbound_established(before, dialed, connection, peer, addr, role, port, handlers.1),
    ensures
        accepted == before,
        dialed == before,
        handlers.0 matches NewHandler::Relayed { endpoint, holepunch_candidates, command } && {
            &&& holepunch_candidates@ == before.address_candidates@
            &&& command is Some
            &&& endpoint matches ConnectedPoint::Listener { local_addr, send_back_addr }
                && local_addr == addr && send_back_addr == remote_addr
        },
        handlers.1 matches NewHandler::Relayed { endpoint, holepunch_candidates, command } && {
            &&& holepunch_candidates@ == before.address_candidates@
            &&& command is None
            &&& endpoint matches ConnectedPoint::Dialer { address, role_override, port_use }
                && address == addr && role_override == role && port_use == port
        },
{
    lemma_has_circuit(addr);
}

/// A dial of an attempt that fails starts the handshake again, on the relayed connection that it
/// was for, as long as fewer than three attempts were made; after the third the application is
/// told that the attempts are used up. A dial that belongs to no attempt changes nothing.
pub proof fn law_failed_dial_is_retried(
    before: Behaviour,
    after: Behaviour,
    event: FromSwarm,
    peer: PeerId,
    failed: ConnectionId,
)
    requires
        news_handled(before, after, event),
        event matches FromSwarm::DialFailure { peer_id, connection_id, .. } && peer_id == Some(peer)
            && connection_id == failed,
    ensures
        ({
            let relayed_of = before.direct_to_relayed_connections.entries@;
            let relayed = relayed_of[key_index(relayed_of, failed)].1;
            let attempts = before.outgoing_direct_connection_attempts.entries@;
            let made = attempts[key_index(attempts, (relayed, peer))].1;
            if has_key(relayed_of, failed) && has_key(attempts, (relayed, peer)) {
                &&& after == (Behaviour { queued_events: after.queued_events, ..before })
                &&& after.queued_events@.len() == before.queued_events@.len() + 1
                &&& before.queued_events@.is_prefix_of(after.queued_events@)
                &&& made < 3 ==> (after.queued_events@.last() matches ToSwarm::NotifyHandler {
                    peer_id,
                    handler,
                    event: command,
                } && peer_id == peer && handler == NotifyHandler::One(relayed) && command
                    == Command::Connect)
                &&& made >= 3 ==> (after.queued_events@.last() matches ToSwarm::GenerateEvent(e)
                    && e.remote_peer_id == peer && (e.result matches Err(err) && err.inner
                    == InnerError::AttemptsExceeded(3)))
            } else {
                after == before
            }
        }),
{
    let n = before.queued_events@.len() as int;
    if after != before {
        assert(after.queued_events@.subrange(0, n) =~= after.queued_events@.drop_last());
    }
}

/// A direct connection that is closed is forgotten, and no other; a relayed one changes nothing.
pub proof fn law_closed_connection_is_forgotten(
    before: Behaviour,
    after: Behaviour,
    event: FromSwarm,
    peer: PeerId,
    connection: ConnectionId,
    other: (PeerId, ConnectionId),
)
    requires
        before.wf(),
        news_handled(before, after, event),
        event matches FromSwarm::ConnectionClosed { peer_id, connection_id, .. } && peer_id == peer
            && connection_id == connection,
    ensures
        after == (Behaviour { direct_connections: after.direct_connections, ..before }),
        event matches FromSwarm::ConnectionClosed { endpoint, .. } ==> (
        after.direct_connections@.contains(other) <==> before.direct_connections@.contains(other)
            && !(other == (peer, connection) && !has_circuit(
            match endpoint {
                ConnectedPoint::Dialer { address, .. } => address,
                ConnectedPoint::Listener { local_addr, .. } => local_addr,
            },
        ))),
{
    lemma_without_item(before.direct_connections@, (peer, connection));
    if let FromSwarm::ConnectionClosed { endpoint, .. } = event {
        lemma_has_circuit(
            match endpoint {
                ConnectedPoint::Dialer { address, .. } => address,
                ConnectedPoint::Listener { local_addr, .. } => local_addr,
            },
        );
    }
}

/// An address that is added is advertised, ending in the local peer, and no address that was
/// advertised is lost; a relayed one is not.
pub proof fn law_added_address_is_advertised(
    candidates: Seq<Multiaddr>,
    me: PeerId,
    address: Multiaddr,
    other: Multiaddr,
)
    ensures
        ({
            let full = if components(address).len() > 0 && components(address).last()
                == Component::P2p(me) {
                address
            } else {
                p2p_appended(address, me)
            };
            candidates_with(candidates, me, address).contains(other) <==> candidates.contains(other)
                || (other == full && !has_circuit(address))
        }),
{
    lemma_has_circuit(address);
    lemma_with_item(candidates, crate::net::ending_in_peer(address, me));
}

/// Where polling yields nothing, it names when the next dial of a burst is due: no burst that is
/// left is due before, one is due then, and none is left if it names nothing.
pub proof fn law_wait_ends_with_next_dial(
    before: Behaviour,
    after: Behaviour,
    now: Moment,
    wake: Option<Moment>,
    i: int,
)
    requires
        polled(before, after, now, Poll::Pending(wake)),
        0 <= i < after.pending_bursts@.len(),
    ensures
        wake matches Some(t) && now.nanos < t.nanos <= after.pending_bursts@[i].due.nanos && exists|
            k: int,
        |
            0 <= k < after.pending_bursts@.len() && (#[trigger] after.pending_bursts@[k]).due == t,
        before.queued_events@.len() == 0,
{
    law_idle_poll_leaves_live_bursts(before, after, now, wake, after.pending_bursts@[i]);
}

} // verus!
