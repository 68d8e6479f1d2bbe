//! Laws of the upgrade behaviour that relate several of its operations.

use libp2p_core::Multiaddr;
use libp2p_identity::PeerId;
use libp2p_swarm::ConnectionId;
use vstd::prelude::*;
use vstd::seq_lib::to_multiset_contains;
use vstd::seq_lib::to_multiset_insert;
use vstd::seq_lib::to_multiset_remove;

use crate::assoc::has_key;
use crate::assoc::key_index;
use crate::assoc::lemma_first_index;
use crate::assoc::lemma_with_item;
use crate::assoc::lemma_without_item;
use crate::dcutr::behaviour::burst_fired;
use crate::dcutr::behaviour::candidates_with;
use crate::dcutr::behaviour::candidates_without;
use crate::dcutr::behaviour::dial_failed;
use crate::dcutr::behaviour::hole_punch_started;
use crate::dcutr::behaviour::inbound_established;
use crate::dcutr::behaviour::is_earliest;
use crate::dcutr::behaviour::next_due;
use crate::dcutr::behaviour::outbound_established;
use crate::dcutr::behaviour::over_quic;
use crate::dcutr::behaviour::Behaviour;
use crate::dcutr::behaviour::Command;
use crate::dcutr::behaviour::NewHandler;
use crate::dcutr::behaviour::PendingBurst;
use crate::dcutr::behaviour::Poll;
use crate::dcutr::behaviour::MAX_NUMBER_OF_UPGRADE_ATTEMPTS;
use crate::kad::kbucket::lemma_filter_member;
use crate::net::ending_in_peer;
use crate::net::spec_is_quic;
use crate::net::spec_is_relayed;
use crate::swarm::swap_removed;
use crate::swarm::Endpoint;
use crate::swarm::PortUse;
use crate::swarm::ToSwarm;
use crate::time::Moment;

verus! {

/// Adding an address twice is adding it once.
pub proof fn law_add_address_idempotent(
    candidates: Seq<Multiaddr>,
    me: PeerId,
    address: Multiaddr,
)
    ensures
        candidates_with(candidates_with(candidates, me, address), me, address) == candidates_with(
            candidates,
            me,
            address,
        ),
{
    lemma_with_item(candidates, ending_in_peer(address, me));
}

/// Removing an address takes back that it was added, if it was new.
pub proof fn law_remove_undoes_add(candidates: Seq<Multiaddr>, me: PeerId, address: Multiaddr)
    requires
        !candidates.contains(ending_in_peer(address, me)),
    ensures
        candidates_without(candidates_with(candidates, me, address), me, address) == candidates,
{
    let target = ending_in_peer(address, me);
    let all = candidates.push(target);
    let n = candidates.len() as int;
    assert(all[n] == target);
    assert forall|j: int| 0 <= j < n implies #[trigger] all[j] != target by {
        assert(candidates[j] != target);
    }
    lemma_first_index(all, target, n);
    assert(swap_removed(all, n) =~= candidates);
}

/// An address that was removed is no longer advertised, and every other address still is.
pub proof fn law_removed_address_is_gone(
    candidates: Seq<Multiaddr>,
    me: PeerId,
    address: Multiaddr,
    other: Multiaddr,
)
    requires
        candidates.no_duplicates(),
    ensures
        candidates_without(candidates, me, address).contains(other) <==> candidates.contains(other)
            && other != ending_in_peer(address, me),
{
    let target = ending_in_peer(address, me);
    let left = candidates_without(candidates, me, address);
    if candidates.contains(target) {
        let at = candidates.index_of(target);
        assert forall|j: int| 0 <= j < at implies #[trigger] candidates[j] != target by {}
        lemma_first_index(candidates, target, at);
        let n = candidates.len() as int;
        if candidates.contains(other) && other != target {
            let i = candidates.index_of(other);
            if i == n - 1 {
                assert(left[at] == other);
            } else {
                assert(left[i] == other);
            }
        }
        if left.contains(other) {
            let i = left.index_of(other);
            if i == at {
                assert(candidates[n - 1] == other);
            } else {
                assert(candidates[i] == other);
            }
        }
    }
}

/// Of several connections to a peer that come about in one attempt, only the first is
/// reported: a later one that the local node dialed adds no event.
pub proof fn law_success_told_once(
    start: Behaviour,
    first: Behaviour,
    second: Behaviour,
    peer: PeerId,
    connections: (ConnectionId, ConnectionId),
    addrs: (Multiaddr, Multiaddr),
    role: Endpoint,
    port: PortUse,
    handlers: (NewHandler, NewHandler),
)
    requires
        start.wf(),
        !spec_is_relayed(addrs.0),
        !spec_is_relayed(addrs.1),
        has_key(start.direct_to_relayed_connections.entries@, connections.0),
        outbound_established(
            start,
            first,
            connections.0,
            peer,
            addrs.0,
            role,
            port,
            handlers.0,
        ),
        outbound_established(
            first,
            second,
            connections.1,
            peer,
            addrs.1,
            role,
            port,
            handlers.1,
        ),
    ensures
        second.queued_events@ == first.queued_events@,
{
    lemma_without_item(start.holepunch_in_progress@, peer);
}

/// The same holds where the first connection came from the remote peer.
pub proof fn law_success_told_once_inbound(
    start: Behaviour,
    first: Behaviour,
    second: Behaviour,
    peer: PeerId,
    connections: (ConnectionId, ConnectionId),
    local_addr: Multiaddr,
    remote_addr: Multiaddr,
    addr: Multiaddr,
    role: Endpoint,
    port: PortUse,
    handlers: (NewHandler, NewHandler),
)
    requires
        start.wf(),
        !spec_is_relayed(local_addr),
        !spec_is_relayed(addr),
        inbound_established(
            start,
            first,
            connections.0,
            peer,
            local_addr,
            remote_addr,
            handlers.0,
        ),
        outbound_established(
            first,
            second,
            connections.1,
            peer,
            addr,
            role,
            port,
            handlers.1,
        ),
    ensures
        second.queued_events@ == first.queued_events@,
{
    lemma_without_item(start.holepunch_in_progress@, peer);
}

/// A burst dials only peers with which an attempt is in progress, only when it is due, and
/// only as often as it has dials left.
pub proof fn law_burst_fires_in_progress(
    bursts: Seq<PendingBurst>,
    from: int,
    in_progress: Seq<PeerId>,
    now: Moment,
)
    requires
        0 <= from <= bursts.len(),
    ensures
        ({
            let (left, due) = next_due(bursts, from, in_progress, now);
            due matches Some(i) ==> {
                &&& from <= i < left.len()
                &&& in_progress.contains(left[i].peer_id)
                &&& left[i].due.nanos <= now.nanos
                &&& left[i].remaining > 0
            }
        }),
    decreases bursts.len() - from,
{
    if from >= bursts.len() {
    } else if bursts[from].remaining == 0 || !in_progress.contains(bursts[from].peer_id) {
        law_burst_fires_in_progress(swap_removed(bursts, from), from, in_progress, now);
    } else if now.nanos >= bursts[from].due.nanos {
    } else {
        law_burst_fires_in_progress(bursts, from + 1, in_progress, now);
    }
}

/// Once an attempt is over, none of its bursts dials any more.
pub proof fn law_no_burst_after_success(
    bursts: Seq<PendingBurst>,
    in_progress: Seq<PeerId>,
    peer: PeerId,
    now: Moment,
)
    requires
        !in_progress.contains(peer),
    ensures
        ({
            let (left, due) = next_due(bursts, 0, in_progress, now);
            due matches Some(i) ==> left[i].peer_id != peer
        }),
{
    law_burst_fires_in_progress(bursts, 0, in_progress, now);
}

/// Whether a burst goes on: it has dials left, and the attempt with its peer is in progress.
pub open spec fn goes_on(burst: PendingBurst, in_progress: Seq<PeerId>) -> bool {
    burst.remaining > 0 && in_progress.contains(burst.peer_id)
}

/// Removing an element by putting the last one in its place takes away just that element.
proof fn lemma_swap_removed_count(bursts: Seq<PendingBurst>, i: int, b: PendingBurst)
    requires
        0 <= i < bursts.len(),
    ensures
        swap_removed(bursts, i).to_multiset().count(b) == bursts.to_multiset().count(b) - (
        if bursts[i] == b {
            1int
        } else {
            0int
        }),
{
    let n = bursts.len() - 1;
    let left = swap_removed(bursts, i);
    to_multiset_contains(bursts, bursts[i]);
    to_multiset_remove(bursts, i);
    if i == n {
        assert(left =~= bursts.remove(i));
    } else {
        let shorter = bursts.remove(i);
        assert(shorter[n - 1] == bursts[n]);
        to_multiset_contains(shorter, bursts[n]);
        to_multiset_remove(shorter, n - 1);
        to_multiset_insert(shorter.remove(n - 1), i, bursts[n]);
        assert(left =~= shorter.remove(n - 1).insert(i, bursts[n]));
    }
}

/// What one scan of the bursts leaves. None that goes on is lost or doubled. Up to the first
/// one that is due there are only such that go on and are not due, and where none is due,
/// those are all: exactly the bursts that go on are left.
pub proof fn law_scan_keeps_live_bursts(
    bursts: Seq<PendingBurst>,
    in_progress: Seq<PeerId>,
    now: Moment,
    b: PendingBurst,
)
    ensures
        ({
            let (left, due) = next_due(bursts, 0, in_progress, now);
            let looked_at = match due {
                Some(i) => i,
                None => left.len() as int,
            };
            &&& goes_on(b, in_progress) ==> left.to_multiset().count(b)
                == bursts.to_multiset().count(b)
            &&& forall|i: int|
                0 <= i < looked_at ==> goes_on(#[trigger] left[i], in_progress) && now.nanos
                    < left[i].due.nanos
            &&& due is None && !goes_on(b, in_progress) ==> left.to_multiset().count(b) == 0
        }),
{
    lemma_scan_keeps_live_bursts(bursts, 0, in_progress, now, b);
    let (left, due) = next_due(bursts, 0, in_progress, now);
    to_multiset_contains(left, b);
}

/// The same of a scan from a burst on, where those before it go on and are not due.
proof fn lemma_scan_keeps_live_bursts(
    bursts: Seq<PendingBurst>,
    from: int,
    in_progress: Seq<PeerId>,
    now: Moment,
    b: PendingBurst,
)
    requires
        0 <= from <= bursts.len(),
        forall|i: int|
            0 <= i < from ==> goes_on(#[trigger] bursts[i], in_progress) && now.nanos
                < bursts[i].due.nanos,
    ensures
        ({
            let (left, due) = next_due(bursts, from, in_progress, now);
            let looked_at = match due {
                Some(i) => i,
                None => left.len() as int,
            };
            &&& goes_on(b, in_progress) ==> left.to_multiset().count(b)
                == bursts.to_multiset().count(b)
            &&& forall|i: int|
                0 <= i < looked_at ==> goes_on(#[trigger] left[i], in_progress) && now.nanos
                    < left[i].due.nanos
        }),
    decreases bursts.len() - from,
{
    if from < bursts.len() {
        if !goes_on(bursts[from], in_progress) {
            let shorter = swap_removed(bursts, from);
            lemma_swap_removed_count(bursts, from, b);
            assert forall|i: int| 0 <= i < from implies goes_on(#[trigger] shorter[i], in_progress)
                && now.nanos < shorter[i].due.nanos by {
                assert(shorter[i] == bursts[i]);
            }
            lemma_scan_keeps_live_bursts(shorter, from, in_progress, now, b);
        } else if now.nanos < bursts[from].due.nanos {
            lemma_scan_keeps_live_bursts(bursts, from + 1, in_progress, now, b);
        }
    }
}

/// Polling that finds nothing to be dialed leaves exactly the bursts that go on, and says when
/// the first of them is due.
pub proof fn law_idle_poll_leaves_live_bursts(
    before: Behaviour,
    after: Behaviour,
    now: Moment,
    wake: Option<Moment>,
    b: PendingBurst,
)
    requires
        burst_fired(before, after, now, Poll::Pending(wake)),
    ensures
        after.pending_bursts@.to_multiset().count(b) == (if goes_on(
            b,
            before.holepunch_in_progress@,
        ) {
            before.pending_bursts@.to_multiset().count(b)
        } else {
            0
        }),
        forall|i: int|
            0 <= i < after.pending_bursts@.len() ==> now.nanos < (
            #[trigger] after.pending_bursts@[i]).due.nanos,
        is_earliest(after.pending_bursts@, wake),
{
    law_scan_keeps_live_bursts(before.pending_bursts@, before.holepunch_in_progress@, now, b);
}

/// Over QUIC, as many dials are made or left to be made as a burst is configured to have:
/// the one that is queued at once and those that remain.
pub proof fn law_burst_has_configured_length(
    before: Behaviour,
    after: Behaviour,
    peer: PeerId,
    addresses: Seq<Multiaddr>,
    relayed: ConnectionId,
    override_role: bool,
    now: Moment,
)
    requires
        hole_punch_started(before, after, peer, addresses, relayed, override_role, now),
        addresses.filter(over_quic()).len() > 0,
        before.config.hole_punch_burst_count > 1,
    ensures
        1 + after.pending_bursts@.last().remaining == before.config.hole_punch_burst_count,
        after.pending_bursts@.last().peer_id == peer,
{
}

/// Where bursts are disabled, nothing is left to be dialed later.
pub proof fn law_no_burst_of_one(
    before: Behaviour,
    after: Behaviour,
    peer: PeerId,
    addresses: Seq<Multiaddr>,
    relayed: ConnectionId,
    override_role: bool,
    now: Moment,
)
    requires
        hole_punch_started(before, after, peer, addresses, relayed, override_role, now),
        before.config.hole_punch_burst_count <= 1,
    ensures
        after.pending_bursts@ == before.pending_bursts@,
{
}

/// A burst dials only addresses that are reached over QUIC: any other is dialed once.
pub proof fn law_bursts_are_over_quic(
    before: Behaviour,
    after: Behaviour,
    peer: PeerId,
    addresses: Seq<Multiaddr>,
    relayed: ConnectionId,
    override_role: bool,
    now: Moment,
    i: int,
)
    requires
        hole_punch_started(before, after, peer, addresses, relayed, override_role, now),
        after.pending_bursts@.len() > before.pending_bursts@.len(),
        0 <= i < after.pending_bursts@.last().addresses@.len(),
    ensures
        spec_is_quic(after.pending_bursts@.last().addresses@[i]),
        addresses.contains(after.pending_bursts@.last().addresses@[i]),
{
    lemma_filter_member(addresses, over_quic(), i);
}

/// A connection to a peer with which no attempt is in progress is not reported.
pub proof fn law_no_report_without_attempt(
    before: Behaviour,
    dialed: Behaviour,
    accepted: Behaviour,
    peer: PeerId,
    connections: (ConnectionId, ConnectionId),
    addr: Multiaddr,
    local_addr: Multiaddr,
    role: Endpoint,
    port: PortUse,
    handlers: (NewHandler, NewHandler),
)
    requires
        !before.holepunch_in_progress@.contains(peer),
        outbound_established(before, dialed, connections.0, peer, addr, role, port, handlers.0),
        inbound_established(
            before,
            accepted,
            connections.1,
            peer,
            local_addr,
            addr,
            handlers.1,
        ),
    ensures
        dialed.queued_events@ == before.queued_events@,
        accepted.queued_events@ == before.queued_events@,
{
}

/// An attempt that has failed as often as it may is given up; before that, the handshake is
/// started again.
pub proof fn law_attempts_are_bounded(
    before: Behaviour,
    after: Behaviour,
    peer: PeerId,
    failed: ConnectionId,
)
    requires
        dial_failed(before, after, Some(peer), failed),
        has_key(before.direct_to_relayed_connections.entries@, failed),
    ensures
        ({
            let relayed_of = before.direct_to_relayed_connections.entries@;
            let relayed = relayed_of[key_index(relayed_of, failed)].1;
            let attempts = before.outgoing_direct_connection_attempts.entries@;
            let event = after.queued_events@.last();
            has_key(attempts, (relayed, peer)) ==> {
                &&& attempts[key_index(attempts, (relayed, peer))].1
                    >= MAX_NUMBER_OF_UPGRADE_ATTEMPTS <==> event is GenerateEvent
                &&& event matches ToSwarm::GenerateEvent(e) ==> e.remote_peer_id == peer
                    && e.result is Err
                &&& event is GenerateEvent || (event matches ToSwarm::NotifyHandler {
                    event: c,
                    ..
                } && c == Command::Connect)
            }
        }),
{
}

} // verus!
