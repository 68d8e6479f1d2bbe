//! The upgrade behaviour.
//!
//! Two peers that are connected through a relay agree, over that connection, to dial each
//! other at the same time. The behaviour keeps the addresses that it may be reached at,
//! dials as it was agreed, repeats dials over QUIC in a short burst, and tells the
//! application how the attempt ended.

use std::collections::VecDeque;

use libp2p_core::Multiaddr;
use libp2p_identity::PeerId;
use libp2p_swarm::dial_opts::DialOpts;
use libp2p_swarm::ConnectionId;
use vstd::prelude::*;
use vstd::string::StringExecFns;

use crate::assoc::add_item;
use crate::assoc::contains;
use crate::assoc::entries_insert;
use crate::assoc::entries_remove;
use crate::assoc::first_index;
use crate::assoc::has_key;
use crate::assoc::key_index;
use crate::assoc::lemma_first_index;
use crate::assoc::lemma_with_item;
use crate::assoc::lemma_without_item;
use crate::assoc::position_of;
use crate::assoc::remove_item;
use crate::assoc::with_item;
use crate::assoc::without_item;
use crate::assoc::Assoc;
use crate::net::components;
use crate::net::connection_of;
use crate::net::dial_addresses;
use crate::net::dial_addresses_as_listener;
use crate::net::dial_connection;
use crate::net::dial_view;
use crate::net::ending_in_peer;
use crate::net::ensure_ends_in_peer;
use crate::net::is_quic;
use crate::net::is_relayed;
use crate::net::spec_is_quic;
use crate::net::spec_is_relayed;
use crate::net::Component;
use crate::net::DialView;
use crate::swarm::swap_removed;
use crate::swarm::ConnectedPoint;
use crate::swarm::Endpoint;
use crate::swarm::FromSwarm;
use crate::swarm::NotifyHandler;
use crate::swarm::PeerCondition;
use crate::swarm::PortUse;
use crate::swarm::ToSwarm;
use crate::text::append_decimal;
use crate::text::decimal;
use crate::time::Duration;
use crate::time::Moment;
use crate::time::MAX_ELAPSED;

verus! {

/// The most attempts to upgrade one relayed connection.
pub const MAX_NUMBER_OF_UPGRADE_ATTEMPTS: u8 = 3;

/// The number of dials of a burst, unless it is configured otherwise.
pub const DEFAULT_HOLE_PUNCH_BURST_COUNT: usize = 5;

/// The milliseconds between the dials of a burst, unless it is configured otherwise.
pub const DEFAULT_HOLE_PUNCH_BURST_INTERVAL_MILLIS: u64 = 20;

/// Configuration of the [`Behaviour`].
#[derive(Clone, Copy, Debug)]
pub struct Config {
    /// The number of rapid-fire dials per attempt over QUIC. TCP addresses are dialed once.
    pub hole_punch_burst_count: usize,
    /// The delay between the dials of a burst.
    pub hole_punch_burst_interval: Duration,
}

impl Default for Config {
    fn default() -> (r: Self)
        ensures
            r.hole_punch_burst_count == 5,
            r.hole_punch_burst_interval@ == 20_000_000,
    {
        Config {
            hole_punch_burst_count: DEFAULT_HOLE_PUNCH_BURST_COUNT,
            hole_punch_burst_interval: Duration::from_millis(
                DEFAULT_HOLE_PUNCH_BURST_INTERVAL_MILLIS,
            ),
        }
    }
}

impl Config {
    /// Sets the number of rapid-fire dials per attempt over QUIC, which is at least one.
    ///
    /// One disables bursts.
    pub fn with_hole_punch_burst_count(self, count: usize) -> (r: Self)
        ensures
            r == (Config {
                hole_punch_burst_count: if count == 0 {
                    1
                } else {
                    count
                },
                ..self
            }),
    {
        Config {
            hole_punch_burst_count: if count == 0 {
                1
            } else {
                count
            },
            ..self
        }
    }

    /// Sets the delay between the dials of a burst.
    pub fn with_hole_punch_burst_interval(self, interval: Duration) -> (r: Self)
        ensures
            r == (Config { hole_punch_burst_interval: interval, ..self }),
    {
        Config { hole_punch_burst_interval: interval, ..self }
    }
}

/// The outcome of an attempt, for the application.
#[derive(Debug)]
pub struct Event {
    /// The peer that a direct connection was attempted with.
    pub remote_peer_id: PeerId,
    /// The new direct connection, or why there is none.
    pub result: Result<ConnectionId, Error>,
}

/// Why an attempt failed.
#[derive(Debug)]
pub struct Error {
    /// What went wrong.
    pub inner: InnerError,
}

/// What went wrong in an attempt.
#[derive(Debug)]
pub enum InnerError {
    /// The peer could not be dialed, this many times over.
    AttemptsExceeded(u8),
    /// The handshake that the remote peer started failed.
    InboundError(HandshakeError),
    /// The handshake that the local node started failed.
    OutboundError(HandshakeError),
}

/// Why a handshake over the relayed connection failed.
#[derive(Debug)]
pub struct HandshakeError {
    /// The reason in words.
    pub reason: String,
}

impl Error {
    /// What the error says.
    pub fn message(&self) -> (r: String)
        ensures
            r@ == "Failed to hole-punch connection: "@ + self.inner.text(),
    {
        let mut s = String::from_str("Failed to hole-punch connection: ");
        s.append(self.inner.message().as_str());
        s
    }
}

impl InnerError {
    /// What the error says.
    pub open spec fn text(&self) -> Seq<char> {
        match self {
            InnerError::AttemptsExceeded(n) => {
                "Giving up after "@ + decimal(*n as nat) + " dial attempts"@
            },
            InnerError::InboundError(e) => "Inbound stream error: "@ + e.reason@,
            InnerError::OutboundError(e) => "Outbound stream error: "@ + e.reason@,
        }
    }

    /// What the error says.
    pub fn message(&self) -> (r: String)
        ensures
            r@ == self.text(),
    {
        match self {
            InnerError::AttemptsExceeded(n) => {
                let mut s = String::from_str("Giving up after ");
                append_decimal(&mut s, *n as usize);
                s.append(" dial attempts");
                s
            },
            InnerError::InboundError(e) => {
                let mut s = String::from_str("Inbound stream error: ");
                s.append(e.reason.as_str());
                s
            },
            InnerError::OutboundError(e) => {
                let mut s = String::from_str("Outbound stream error: ");
                s.append(e.reason.as_str());
                s
            },
        }
    }
}

/// What the handler of a relayed connection is told.
#[derive(Debug)]
pub enum Command {
    /// Start the handshake.
    Connect,
}

/// What the handler of a relayed connection reports.
#[derive(Debug)]
pub enum HandlerEvent {
    /// A handshake that the remote peer started was completed.
    InboundConnectNegotiated {
        /// The addresses that the remote peer may be reached at.
        remote_addrs: Vec<Multiaddr>,
    },
    /// A handshake that the remote peer started failed.
    InboundConnectFailed {
        /// Why it failed.
        error: HandshakeError,
    },
    /// A handshake that the local node started failed.
    OutboundConnectFailed {
        /// Why it failed.
        error: HandshakeError,
    },
    /// A handshake that the local node started was completed.
    OutboundConnectNegotiated {
        /// The addresses that the remote peer may be reached at.
        remote_addrs: Vec<Multiaddr>,
    },
}

/// The handler that a new connection gets.
#[derive(Debug)]
pub enum NewHandler {
    /// A handler that can upgrade a relayed connection.
    Relayed {
        /// How the peer is connected.
        endpoint: ConnectedPoint,
        /// The addresses to be advertised in the handshake.
        holepunch_candidates: Vec<Multiaddr>,
        /// What the handler is told at once.
        command: Option<Command>,
    },
    /// A handler that does nothing.
    Direct,
}

/// A burst of dials of which some are left.
#[derive(Debug)]
pub struct PendingBurst {
    /// When the next dial is due.
    pub due: Moment,
    /// The number of dials that are left.
    pub remaining: usize,
    /// The peer to be dialed.
    pub peer_id: PeerId,
    /// The addresses to be dialed.
    pub addresses: Vec<Multiaddr>,
    /// The relayed connection that is being upgraded.
    pub relayed_connection_id: ConnectionId,
    /// Whether the local node takes the role of the listener.
    pub override_role: bool,
}

/// What polling a [`Behaviour`] yields.
#[derive(Debug)]
pub enum Poll {
    /// Something to be done.
    Ready(ToSwarm<Event, Command>),
    /// Nothing to be done, before the given point in time if there is one.
    Pending(Option<Moment>),
}

/// A behaviour that upgrades relayed connections to direct ones.
pub struct Behaviour {
    /// What polling will yield, first to last.
    pub queued_events: VecDeque<ToSwarm<Event, Command>>,
    /// All direct connections, each with its peer.
    pub direct_connections: Vec<(PeerId, ConnectionId)>,
    /// The addresses to be advertised.
    pub address_candidates: Vec<Multiaddr>,
    /// The local peer.
    pub me: PeerId,
    /// For each connection that was dialed, the relayed connection that it is to replace.
    pub direct_to_relayed_connections: Assoc<ConnectionId, ConnectionId>,
    /// For each relayed connection and peer, the number of attempts.
    pub outgoing_direct_connection_attempts: Assoc<(ConnectionId, PeerId), u8>,
    /// The peers with which an attempt is in progress.
    pub holepunch_in_progress: Vec<PeerId>,
    /// The bursts of which dials are left.
    pub pending_bursts: Vec<PendingBurst>,
    /// The configuration.
    pub config: Config,
}

/// Whether `addr` may stand among the candidates of `me`.
pub open spec fn valid_candidate(addr: Multiaddr, me: PeerId) -> bool {
    &&& !spec_is_relayed(addr)
    &&& components(addr).len() > 0
    &&& components(addr).last() == Component::P2p(me)
}

/// The candidates after `address` was added.
pub open spec fn candidates_with(
    candidates: Seq<Multiaddr>,
    me: PeerId,
    address: Multiaddr,
) -> Seq<Multiaddr> {
    if spec_is_relayed(address) {
        candidates
    } else {
        with_item(candidates, ending_in_peer(address, me))
    }
}

/// The candidates after `address` was removed: the last one takes its place.
pub open spec fn candidates_without(
    candidates: Seq<Multiaddr>,
    me: PeerId,
    address: Multiaddr,
) -> Seq<Multiaddr> {
    let target = ending_in_peer(address, me);
    if candidates.contains(target) {
        swap_removed(candidates, first_index(candidates, target))
    } else {
        candidates
    }
}

/// Tells QUIC addresses from others.
pub open spec fn over_quic() -> spec_fn(Multiaddr) -> bool {
    |a: Multiaddr| spec_is_quic(a)
}

/// Tells other addresses from QUIC addresses.
pub open spec fn not_over_quic() -> spec_fn(Multiaddr) -> bool {
    |a: Multiaddr| !spec_is_quic(a)
}

/// The dial of a peer in an attempt.
pub open spec fn hole_punch_dial(
    peer: PeerId,
    addresses: Seq<Multiaddr>,
    override_role: bool,
) -> DialView {
    DialView {
        peer,
        condition: PeerCondition::Always,
        addresses,
        extend_addresses: false,
        as_listener: override_role,
        new_port: false,
    }
}

/// Whether `event` is a dial with the given parts.
pub open spec fn is_dial(event: ToSwarm<Event, Command>, parts: DialView) -> bool {
    event matches ToSwarm::Dial { opts } && dial_view(opts) == parts
}

/// The connection that a dial is for.
pub open spec fn dialed(event: ToSwarm<Event, Command>) -> ConnectionId {
    dial_connection(event->opts)
}

/// The number of dials that an attempt queues at once: one if there is an address that is
/// not reached over QUIC, and one if there is an address that is.
pub open spec fn dials_at_once(addresses: Seq<Multiaddr>) -> nat {
    (if addresses.filter(not_over_quic()).len() > 0 {
        1nat
    } else {
        0nat
    }) + (if addresses.filter(over_quic()).len() > 0 {
        1nat
    } else {
        0nat
    })
}

/// What an attempt changes: it queues a dial for the addresses that are not reached over
/// QUIC, then a dial for those that are, and what is left of a burst of the latter.
pub open spec fn hole_punch_started(
    before: Behaviour,
    after: Behaviour,
    peer: PeerId,
    addresses: Seq<Multiaddr>,
    relayed: ConnectionId,
    override_role: bool,
    now: Moment,
) -> bool {
    let tcp = addresses.filter(not_over_quic());
    let quic = addresses.filter(over_quic());
    let old_events = before.queued_events@;
    let events = after.queued_events@;
    let n = old_events.len() as int;
    let m = n + (if tcp.len() > 0 {
        1int
    } else {
        0int
    });
    let after_tcp = if tcp.len() > 0 {
        entries_insert(before.direct_to_relayed_connections.entries@, dialed(events[n]), relayed)
    } else {
        before.direct_to_relayed_connections.entries@
    };
    &&& after == (Behaviour {
        queued_events: after.queued_events,
        direct_to_relayed_connections: after.direct_to_relayed_connections,
        pending_bursts: after.pending_bursts,
        ..before
    })
    &&& events.len() == n + dials_at_once(addresses)
    &&& events.take(n) == old_events
    &&& tcp.len() > 0 ==> is_dial(events[n], hole_punch_dial(peer, tcp, override_role))
    &&& quic.len() > 0 ==> is_dial(events[m], hole_punch_dial(peer, quic, override_role))
    &&& after.direct_to_relayed_connections.entries@ == (if quic.len() > 0 {
        entries_insert(after_tcp, dialed(events[m]), relayed)
    } else {
        after_tcp
    })
    &&& if quic.len() > 0 && before.config.hole_punch_burst_count > 1 {
        let k = before.pending_bursts@.len() as int;
        let burst = after.pending_bursts@[k];
        &&& after.pending_bursts@.len() == k + 1
        &&& after.pending_bursts@.take(k) == before.pending_bursts@
        &&& burst.due == now.spec_add(before.config.hole_punch_burst_interval)
        &&& burst.remaining == before.config.hole_punch_burst_count - 1
        &&& burst.peer_id == peer
        &&& burst.addresses@ == quic
        &&& burst.relayed_connection_id == relayed
        &&& burst.override_role == override_role
    } else {
        after.pending_bursts@ == before.pending_bursts@
    }
}

/// The number of attempts after one more.
pub open spec fn attempts_after(
    entries: Seq<((ConnectionId, PeerId), u8)>,
    key: (ConnectionId, PeerId),
) -> int {
    if has_key(entries, key) {
        entries[key_index(entries, key)].1 + 1
    } else {
        1
    }
}

/// What a completed handshake changes: the attempt is counted and in progress, and started.
pub open spec fn negotiated(
    before: Behaviour,
    after: Behaviour,
    peer: PeerId,
    addresses: Seq<Multiaddr>,
    relayed: ConnectionId,
    override_role: bool,
    now: Moment,
) -> bool {
    exists|mid: Behaviour|
        {
            let key = (relayed, peer);
            let entries = before.outgoing_direct_connection_attempts.entries@;
            &&& mid == (Behaviour {
                holepunch_in_progress: mid.holepunch_in_progress,
                outgoing_direct_connection_attempts: mid.outgoing_direct_connection_attempts,
                ..before
            })
            &&& mid.holepunch_in_progress@ == with_item(before.holepunch_in_progress@, peer)
            &&& mid.outgoing_direct_connection_attempts.entries@ == entries_insert(
                entries,
                key,
                attempts_after(entries, key) as u8,
            )
            &&& #[trigger] hole_punch_started(
                mid,
                after,
                peer,
                addresses,
                relayed,
                override_role,
                now,
            )
        }
}

/// Whether `after` is `before` with one event at the end of its queue.
pub open spec fn queued_one(before: Behaviour, after: Behaviour) -> bool {
    &&& after == (Behaviour { queued_events: after.queued_events, ..before })
    &&& after.queued_events@.len() == before.queued_events@.len() + 1
    &&& after.queued_events@.drop_last() == before.queued_events@
}

/// Whether `event` tells the application that an attempt succeeded.
pub open spec fn is_success(
    event: ToSwarm<Event, Command>,
    peer: PeerId,
    connection: ConnectionId,
) -> bool {
    event == ToSwarm::<Event, Command>::GenerateEvent(
        Event { remote_peer_id: peer, result: Ok(connection) },
    )
}

/// The bursts that are left once those that are spent or whose attempt is over were
/// dropped, up to the first one that is due, and where that one stands.
pub open spec fn next_due(
    bursts: Seq<PendingBurst>,
    from: int,
    in_progress: Seq<PeerId>,
    now: Moment,
) -> (Seq<PendingBurst>, Option<int>)
    decreases bursts.len() - from,
{
    if from < 0 || from >= bursts.len() {
        (bursts, None)
    } else if bursts[from].remaining == 0 || !in_progress.contains(bursts[from].peer_id) {
        next_due(swap_removed(bursts, from), from, in_progress, now)
    } else if now.nanos >= bursts[from].due.nanos {
        (bursts, Some(from))
    } else {
        next_due(bursts, from + 1, in_progress, now)
    }
}

/// What polling changes where no event is queued.
pub open spec fn burst_fired(
    before: Behaviour,
    after: Behaviour,
    now: Moment,
    r: Poll,
) -> bool {
    let (left, due) = next_due(before.pending_bursts@, 0, before.holepunch_in_progress@, now);
    match due {
        Some(i) => {
            let burst = left[i];
            let fired = after.pending_bursts@[i];
            &&& r matches Poll::Ready(event)
            &&& is_dial(
                event,
                hole_punch_dial(burst.peer_id, burst.addresses@, burst.override_role),
            )
            &&& after == (Behaviour {
                direct_to_relayed_connections: after.direct_to_relayed_connections,
                pending_bursts: after.pending_bursts,
                ..before
            })
            &&& after.direct_to_relayed_connections.entries@ == entries_insert(
                before.direct_to_relayed_connections.entries@,
                dialed(event),
                burst.relayed_connection_id,
            )
            &&& after.pending_bursts@ == left.update(
                i,
                (PendingBurst { remaining: fired.remaining, due: fired.due, ..burst }),
            )
            &&& fired.remaining == burst.remaining - 1
            &&& fired.due == (if burst.remaining > 1 {
                now.spec_add(before.config.hole_punch_burst_interval)
            } else {
                burst.due
            })
        },
        None => {
            &&& r matches Poll::Pending(wake)
            &&& is_earliest(left, wake)
            &&& after == (Behaviour { pending_bursts: after.pending_bursts, ..before })
            &&& after.pending_bursts@ == left
        },
    }
}

/// What polling changes, and what it yields.
pub open spec fn polled(before: Behaviour, after: Behaviour, now: Moment, r: Poll) -> bool {
    if before.queued_events@.len() > 0 {
        &&& r == Poll::Ready(before.queued_events@[0])
        &&& after == (Behaviour { queued_events: after.queued_events, ..before })
        &&& after.queued_events@ == before.queued_events@.drop_first()
    } else {
        burst_fired(before, after, now, r)
    }
}

/// Whether `wake` is the point in time at which the first of the bursts is due.
pub open spec fn is_earliest(bursts: Seq<PendingBurst>, wake: Option<Moment>) -> bool {
    match wake {
        Some(t) => {
            &&& exists|i: int| 0 <= i < bursts.len() && (#[trigger] bursts[i]).due == t
            &&& forall|i: int| 0 <= i < bursts.len() ==> t.nanos <= (#[trigger] bursts[i]).due.nanos
        },
        None => bursts.len() == 0,
    }
}

/// The time at which the first of the bursts is due.
fn earliest(bursts: &Vec<PendingBurst>) -> (r: Option<Moment>)
    ensures
        is_earliest(bursts@, r),
{
    let n: usize = bursts.len();
    if n == 0 {
        return None;
    }
    let mut best: Moment = bursts[0].due;
    assert(bursts@[0].due == best);
    let mut i: usize = 1;
    while i < n
        invariant
            n == bursts@.len(),
            1 <= i <= n,
            exists|k: int| 0 <= k < bursts@.len() && (#[trigger] bursts@[k]).due == best,
            forall|k: int| 0 <= k < i ==> best.nanos <= (#[trigger] bursts@[k]).due.nanos,
        decreases n - i,
    {
        if bursts[i].due.nanos < best.nanos {
            best = bursts[i].due;
            assert(bursts@[i as int].due == best);
        }
        i = i + 1;
    }
    Some(best)
}

impl Behaviour {
    /// What holds of a behaviour at all times.
    pub open spec fn wf(&self) -> bool {
        &&& self.address_candidates@.no_duplicates()
        &&& forall|i: int|
            0 <= i < self.address_candidates@.len() ==> valid_candidate(
                #[trigger] self.address_candidates@[i],
                self.me,
            )
        &&& self.direct_connections@.no_duplicates()
        &&& self.holepunch_in_progress@.no_duplicates()
        &&& self.direct_to_relayed_connections.wf()
        &&& self.outgoing_direct_connection_attempts.wf()
    }

    /// A behaviour of the given peer with the default configuration.
    pub fn new(local_peer_id: PeerId) -> (r: Self)
        ensures
            r.wf(),
            r.fresh(local_peer_id),
            r.config.hole_punch_burst_count == 5,
            r.config.hole_punch_burst_interval@ == 20_000_000,
    {
        Self::with_config(local_peer_id, Config::default())
    }

    /// Whether nothing has happened yet to the behaviour of the given peer.
    pub open spec fn fresh(&self, local_peer_id: PeerId) -> bool {
        &&& self.me == local_peer_id
        &&& self.queued_events@.len() == 0
        &&& self.direct_connections@.len() == 0
        &&& self.address_candidates@.len() == 0
        &&& self.direct_to_relayed_connections.entries@.len() == 0
        &&& self.outgoing_direct_connection_attempts.entries@.len() == 0
        &&& self.holepunch_in_progress@.len() == 0
        &&& self.pending_bursts@.len() == 0
    }

    /// A behaviour of the given peer with the given configuration.
    pub fn with_config(local_peer_id: PeerId, config: Config) -> (r: Self)
        ensures
            r.wf(),
            r.fresh(local_peer_id),
            r.config == config,
    {
        Behaviour {
            queued_events: VecDeque::new(),
            direct_connections: Vec::new(),
            address_candidates: Vec::new(),
            me: local_peer_id,
            direct_to_relayed_connections: Assoc::new(),
            outgoing_direct_connection_attempts: Assoc::new(),
            holepunch_in_progress: Vec::new(),
            pending_bursts: Vec::new(),
            config,
        }
    }

    /// Adds an address to be advertised.
    ///
    /// `/p2p/<local peer>` is appended to it if it does not end so already. A relayed
    /// address is ignored.
    pub fn add_address(&mut self, address: Multiaddr)
        requires
            old(self).wf(),
        ensures
            final(self).wf(),
            *final(self) == (Behaviour {
                address_candidates: final(self).address_candidates,
                ..*old(self)
            }),
            final(self).address_candidates@ == candidates_with(
                old(self).address_candidates@,
                old(self).me,
                address,
            ),
    {
        if is_relayed(&address) {
            return;
        }
        let address = ensure_ends_in_peer(address, &self.me);
        proof {
            lemma_with_item(self.address_candidates@, address);
        }
        if !contains(&self.address_candidates, &address) {
            self.address_candidates.push(address);
        }
    }

    /// Removes an address that was to be advertised.
    ///
    /// `/p2p/<local peer>` is appended to it first if it does not end so already.
    pub fn remove_address(&mut self, address: Multiaddr)
        requires
            old(self).wf(),
        ensures
            final(self).wf(),
            *final(self) == (Behaviour {
                address_candidates: final(self).address_candidates,
                ..*old(self)
            }),
            final(self).address_candidates@ == candidates_without(
                old(self).address_candidates@,
                old(self).me,
                address,
            ),
    {
        let address = ensure_ends_in_peer(address, &self.me);
        if let Some(pos) = position_of(&self.address_candidates, &address) {
            proof {
                lemma_first_index(self.address_candidates@, address, pos as int);
            }
            let ghost all = self.address_candidates@;
            self.address_candidates.swap_remove(pos);
            assert(self.address_candidates@ =~= swap_removed(all, pos as int));
        }
    }

    /// The addresses to be advertised.
    pub fn observed_addresses(&self) -> (r: Vec<Multiaddr>)
        ensures
            r@ == self.address_candidates@,
    {
        let addrs = self.address_candidates.clone();
        assert(addrs@ =~= self.address_candidates@);
        addrs
    }

    /// Starts the dials of an attempt: one for the addresses that are not reached over QUIC,
    /// and a burst for those that are.
    fn initiate_hole_punch_dials(
        &mut self,
        peer_id: PeerId,
        addresses: Vec<Multiaddr>,
        relayed_connection_id: ConnectionId,
        override_role: bool,
        now: Moment,
    )
        requires
            old(self).wf(),
            now.nanos <= MAX_ELAPSED,
        ensures
            final(self).wf(),
            hole_punch_started(
                *old(self),
                *final(self),
                peer_id,
                addresses@,
                relayed_connection_id,
                override_role,
                now,
            ),
    {
        let (quic_addrs, tcp_addrs) = partition_quic(addresses);
        let ghost before = *self;
        let ghost n = before.queued_events@.len() as int;
        if !tcp_addrs.is_empty() {
            let opts = self.create_hole_punch_dial(
                peer_id,
                tcp_addrs,
                relayed_connection_id,
                override_role,
            );
            self.queued_events.push_back(ToSwarm::Dial { opts });
        }
        let ghost mid = *self;
        if !quic_addrs.is_empty() {
            let burst_count: usize = self.config.hole_punch_burst_count;
            let first = quic_addrs.clone();
            assert(first@ =~= quic_addrs@);
            let opts = self.create_hole_punch_dial(
                peer_id,
                first,
                relayed_connection_id,
                override_role,
            );
            self.queued_events.push_back(ToSwarm::Dial { opts });
            if burst_count > 1 {
                self.pending_bursts.push(
                    PendingBurst {
                        due: now.plus(self.config.hole_punch_burst_interval),
                        remaining: burst_count - 1,
                        peer_id,
                        addresses: quic_addrs,
                        relayed_connection_id,
                        override_role,
                    },
                );
            }
        }
        assert(self.queued_events@.take(n) =~= before.queued_events@);
        assert(self.pending_bursts@.take(before.pending_bursts@.len() as int)
            =~= before.pending_bursts@);
    }

    /// Makes one dial of an attempt, and remembers which relayed connection it is for.
    fn create_hole_punch_dial(
        &mut self,
        peer_id: PeerId,
        addresses: Vec<Multiaddr>,
        relayed_connection_id: ConnectionId,
        override_role: bool,
    ) -> (opts: DialOpts)
        requires
            old(self).wf(),
        ensures
            final(self).wf(),
            *final(self) == (Behaviour {
                direct_to_relayed_connections: final(self).direct_to_relayed_connections,
                ..*old(self)
            }),
            final(self).direct_to_relayed_connections.entries@ == entries_insert(
                old(self).direct_to_relayed_connections.entries@,
                dial_connection(opts),
                relayed_connection_id,
            ),
            dial_view(opts) == hole_punch_dial(peer_id, addresses@, override_role),
    {
        let opts = if override_role {
            dial_addresses_as_listener(peer_id, addresses)
        } else {
            dial_addresses(peer_id, addresses)
        };
        let connection_id = connection_of(&opts);
        self.direct_to_relayed_connections.insert(connection_id, relayed_connection_id);
        opts
    }

    /// Handles a failed dial: if it belongs to an attempt, the handshake is started again, or
    /// the attempt is given up if it was the last one.
    pub fn on_dial_failure(
        &mut self,
        peer_id: Option<PeerId>,
        failed_direct_connection: ConnectionId,
    )
        requires
            old(self).wf(),
        ensures
            final(self).wf(),
            dial_failed(*old(self), *final(self), peer_id, failed_direct_connection),
    {
        let peer_id = match peer_id {
            Some(p) => p,
            None => return,
        };
        let relayed_connection_id = match self.direct_to_relayed_connections.get(
            &failed_direct_connection,
        ) {
            Some(c) => *c,
            None => return,
        };
        let attempt: u8 = match self.outgoing_direct_connection_attempts.get(
            &(relayed_connection_id, peer_id),
        ) {
            Some(a) => *a,
            None => return,
        };
        let ghost events = self.queued_events@;
        if attempt < MAX_NUMBER_OF_UPGRADE_ATTEMPTS {
            self.queued_events.push_back(
                ToSwarm::NotifyHandler {
                    handler: NotifyHandler::One(relayed_connection_id),
                    peer_id,
                    event: Command::Connect,
                },
            );
        } else {
            self.queued_events.push_back(
                ToSwarm::GenerateEvent(
                    Event {
                        remote_peer_id: peer_id,
                        result: Err(
                            Error {
                                inner: InnerError::AttemptsExceeded(MAX_NUMBER_OF_UPGRADE_ATTEMPTS),
                            },
                        ),
                    },
                ),
            );
        }
        assert(self.queued_events@.drop_last() =~= events);
    }

    /// Handles a closed connection: a direct one, which has to be known, is forgotten.
    pub fn on_connection_closed(
        &mut self,
        peer_id: PeerId,
        connection_id: ConnectionId,
        connected_point: &ConnectedPoint,
    )
        requires
            old(self).wf(),
            !connected_point.relayed() ==> old(self).direct_connections@.contains(
                (peer_id, connection_id),
            ),
        ensures
            final(self).wf(),
            closed(*old(self), *final(self), peer_id, connection_id, *connected_point),
    {
        if !connected_point.is_relayed() {
            proof {
                lemma_without_item(self.direct_connections@, (peer_id, connection_id));
            }
            remove_item(&mut self.direct_connections, &(peer_id, connection_id));
        }
    }

    /// Handles a new connection that the remote peer dialed.
    ///
    /// A relayed one gets a handler that starts the handshake. A direct one ends an attempt
    /// that is in progress with its peer: the remote peer's dial came first.
    pub fn handle_established_inbound_connection(
        &mut self,
        connection_id: ConnectionId,
        peer: PeerId,
        local_addr: &Multiaddr,
        remote_addr: &Multiaddr,
    ) -> (r: NewHandler)
        requires
            old(self).wf(),
            !spec_is_relayed(*local_addr) ==> !has_key(
                old(self).direct_to_relayed_connections.entries@,
                connection_id,
            ),
        ensures
            final(self).wf(),
            inbound_established(
                *old(self),
                *final(self),
                connection_id,
                peer,
                *local_addr,
                *remote_addr,
                r,
            ),
    {
        if is_relayed(local_addr) {
            return NewHandler::Relayed {
                endpoint: ConnectedPoint::Listener {
                    local_addr: local_addr.clone(),
                    send_back_addr: remote_addr.clone(),
                },
                holepunch_candidates: self.observed_addresses(),
                command: Some(Command::Connect),
            };
        }
        let ghost before = *self;
        proof {
            lemma_with_item(self.direct_connections@, (peer, connection_id));
            lemma_without_item(self.holepunch_in_progress@, peer);
        }
        add_item(&mut self.direct_connections, (peer, connection_id));
        if remove_item(&mut self.holepunch_in_progress, &peer) {
            self.queued_events.push_back(
                ToSwarm::GenerateEvent(Event { remote_peer_id: peer, result: Ok(connection_id) }),
            );
            assert(self.queued_events@.drop_last() =~= before.queued_events@);
        }
        NewHandler::Direct
    }

    /// Handles a new connection that the local node dialed.
    ///
    /// A relayed one gets a handler that waits for the handshake. A direct one that belongs
    /// to an attempt ends it, and only the first one does.
    pub fn handle_established_outbound_connection(
        &mut self,
        connection_id: ConnectionId,
        peer: PeerId,
        addr: &Multiaddr,
        role_override: Endpoint,
        port_use: PortUse,
    ) -> (r: NewHandler)
        requires
            old(self).wf(),
        ensures
            final(self).wf(),
            outbound_established(
                *old(self),
                *final(self),
                connection_id,
                peer,
                *addr,
                role_override,
                port_use,
                r,
            ),
    {
        if is_relayed(addr) {
            return NewHandler::Relayed {
                endpoint: ConnectedPoint::Dialer {
                    address: addr.clone(),
                    role_override,
                    port_use,
                },
                holepunch_candidates: self.observed_addresses(),
                command: None,
            };
        }
        let ghost before = *self;
        proof {
            lemma_with_item(self.direct_connections@, (peer, connection_id));
            lemma_without_item(self.holepunch_in_progress@, peer);
        }
        add_item(&mut self.direct_connections, (peer, connection_id));
        let relayed = match self.direct_to_relayed_connections.get(&connection_id) {
            Some(c) => Some(*c),
            None => None,
        };
        if let Some(relayed_connection_id) = relayed {
            self.outgoing_direct_connection_attempts.remove(&(relayed_connection_id, peer));
            if remove_item(&mut self.holepunch_in_progress, &peer) {
                self.queued_events.push_back(
                    ToSwarm::GenerateEvent(
                        Event { remote_peer_id: peer, result: Ok(connection_id) },
                    ),
                );
                assert(self.queued_events@.drop_last() =~= before.queued_events@);
            }
        }
        NewHandler::Direct
    }

    /// Handles what the handler of a relayed connection reports.
    ///
    /// The handlers of direct connections report nothing.
    pub fn on_connection_handler_event(
        &mut self,
        event_source: PeerId,
        relayed_connection_id: ConnectionId,
        handler_event: HandlerEvent,
        now: Moment,
    )
        requires
            old(self).wf(),
            now.nanos <= MAX_ELAPSED,
            handler_event is InboundConnectNegotiated || handler_event is OutboundConnectNegotiated
                ==> attempts_after(
                old(self).outgoing_direct_connection_attempts.entries@,
                (relayed_connection_id, event_source),
            ) <= u8::MAX,
        ensures
            final(self).wf(),
            reported(
                *old(self),
                *final(self),
                event_source,
                relayed_connection_id,
                handler_event,
                now,
            ),
    {
        let ghost events = self.queued_events@;
        match handler_event {
            HandlerEvent::InboundConnectNegotiated { remote_addrs } => {
                self.count_attempt(event_source, relayed_connection_id);
                self.initiate_hole_punch_dials(
                    event_source,
                    remote_addrs,
                    relayed_connection_id,
                    false,
                    now,
                );
            },
            HandlerEvent::InboundConnectFailed { error } => {
                self.queued_events.push_back(
                    ToSwarm::GenerateEvent(
                        Event {
                            remote_peer_id: event_source,
                            result: Err(Error { inner: InnerError::InboundError(error) }),
                        },
                    ),
                );
                assert(self.queued_events@.drop_last() =~= events);
            },
            HandlerEvent::OutboundConnectFailed { error } => {
                self.queued_events.push_back(
                    ToSwarm::GenerateEvent(
                        Event {
                            remote_peer_id: event_source,
                            result: Err(Error { inner: InnerError::OutboundError(error) }),
                        },
                    ),
                );
                assert(self.queued_events@.drop_last() =~= events);
            },
            HandlerEvent::OutboundConnectNegotiated { remote_addrs } => {
                self.count_attempt(event_source, relayed_connection_id);
                self.initiate_hole_punch_dials(
                    event_source,
                    remote_addrs,
                    relayed_connection_id,
                    true,
                    now,
                );
            },
        }
    }

    /// Notes that an attempt is in progress, and counts it.
    fn count_attempt(&mut self, peer: PeerId, relayed_connection_id: ConnectionId)
        requires
            old(self).wf(),
            attempts_after(
                old(self).outgoing_direct_connection_attempts.entries@,
                (relayed_connection_id, peer),
            ) <= u8::MAX,
        ensures
            final(self).wf(),
            *final(self) == (Behaviour {
                holepunch_in_progress: final(self).holepunch_in_progress,
                outgoing_direct_connection_attempts: final(self).outgoing_direct_connection_attempts,
                ..*old(self)
            }),
            final(self).holepunch_in_progress@ == with_item(old(self).holepunch_in_progress@, peer),
            final(self).outgoing_direct_connection_attempts.entries@ == entries_insert(
                old(self).outgoing_direct_connection_attempts.entries@,
                (relayed_connection_id, peer),
                attempts_after(
                    old(self).outgoing_direct_connection_attempts.entries@,
                    (relayed_connection_id, peer),
                ) as u8,
            ),
    {
        proof {
            lemma_with_item(self.holepunch_in_progress@, peer);
        }
        add_item(&mut self.holepunch_in_progress, peer);
        let key = (relayed_connection_id, peer);
        let count: u8 = match self.outgoing_direct_connection_attempts.get(&key) {
            Some(n) => *n,
            None => 0,
        };
        self.outgoing_direct_connection_attempts.insert(key, count + 1);
    }

    /// Yields the first queued event, or else the next dial of a burst that is due.
    pub fn poll(&mut self, now: Moment) -> (r: Poll)
        requires
            old(self).wf(),
            now.nanos <= MAX_ELAPSED,
        ensures
            final(self).wf(),
            polled(*old(self), *final(self), now, r),
    {
        if self.queued_events.len() > 0 {
            if let Some(event) = self.queued_events.pop_front() {
                assert(self.queued_events@ =~= old(self).queued_events@.drop_first());
                return Poll::Ready(event);
            }
        }
        let ghost before = *self;
        let mut i: usize = 0;
        while i < self.pending_bursts.len()
            invariant
                self.wf(),
                before.queued_events@.len() == 0,
                0 <= i <= self.pending_bursts@.len(),
                *self == (Behaviour { pending_bursts: self.pending_bursts, ..before }),
                next_due(self.pending_bursts@, i as int, before.holepunch_in_progress@, now)
                    == next_due(before.pending_bursts@, 0, before.holepunch_in_progress@, now),
                now.nanos <= MAX_ELAPSED,
                *old(self) == before,
            decreases self.pending_bursts@.len() - i,
        {
            let ghost bursts = self.pending_bursts@;
            if self.pending_bursts[i].remaining == 0 || !contains(
                &self.holepunch_in_progress,
                &self.pending_bursts[i].peer_id,
            ) {
                self.pending_bursts.swap_remove(i);
                assert(self.pending_bursts@ =~= swap_removed(bursts, i as int));
                continue;
            }
            if now.reached(&self.pending_bursts[i].due) {
                let peer_id = self.pending_bursts[i].peer_id;
                let addresses = self.pending_bursts[i].addresses.clone();
                assert(addresses@ =~= bursts[i as int].addresses@);
                let relayed_connection_id = self.pending_bursts[i].relayed_connection_id;
                let override_role = self.pending_bursts[i].override_role;
                let remaining: usize = self.pending_bursts[i].remaining - 1;
                self.pending_bursts[i].remaining = remaining;
                let opts = self.create_hole_punch_dial(
                    peer_id,
                    addresses,
                    relayed_connection_id,
                    override_role,
                );
                if remaining > 0 {
                    self.pending_bursts[i].due = now.plus(self.config.hole_punch_burst_interval);
                }
                proof {
                    let fired = self.pending_bursts@[i as int];
                    assert(self.pending_bursts@ =~= bursts.update(
                        i as int,
                        PendingBurst {
                            remaining: fired.remaining,
                            due: fired.due,
                            ..bursts[i as int]
                        },
                    ));
                }
                return Poll::Ready(ToSwarm::Dial { opts });
            }
            i = i + 1;
        }
        Poll::Pending(earliest(&self.pending_bursts))
    }

    /// Handles what the swarm tells.
    pub fn on_swarm_event(&mut self, event: FromSwarm)
        requires
            old(self).wf(),
            event matches FromSwarm::ConnectionClosed { peer_id, connection_id, endpoint, .. }
                ==> !endpoint.relayed() ==> old(self).direct_connections@.contains(
                (peer_id, connection_id),
            ),
        ensures
            final(self).wf(),
            news_handled(*old(self), *final(self), event),
    {
        match event {
            FromSwarm::ConnectionClosed { peer_id, connection_id, endpoint, .. } => {
                self.on_connection_closed(peer_id, connection_id, &endpoint)
            },
            FromSwarm::DialFailure { peer_id, connection_id, .. } => {
                self.on_dial_failure(peer_id, connection_id)
            },
            _ => {},
        }
    }
}

/// What the report of the handler of a relayed connection changes.
pub open spec fn reported(
    before: Behaviour,
    after: Behaviour,
    source: PeerId,
    relayed: ConnectionId,
    event: HandlerEvent,
    now: Moment,
) -> bool {
    match event {
        HandlerEvent::InboundConnectNegotiated { remote_addrs } => negotiated(
            before,
            after,
            source,
            remote_addrs@,
            relayed,
            false,
            now,
        ),
        HandlerEvent::OutboundConnectNegotiated { remote_addrs } => negotiated(
            before,
            after,
            source,
            remote_addrs@,
            relayed,
            true,
            now,
        ),
        HandlerEvent::InboundConnectFailed { error } => {
            &&& queued_one(before, after)
            &&& after.queued_events@.last() == ToSwarm::<Event, Command>::GenerateEvent(
                Event {
                    remote_peer_id: source,
                    result: Err(Error { inner: InnerError::InboundError(error) }),
                },
            )
        },
        HandlerEvent::OutboundConnectFailed { error } => {
            &&& queued_one(before, after)
            &&& after.queued_events@.last() == ToSwarm::<Event, Command>::GenerateEvent(
                Event {
                    remote_peer_id: source,
                    result: Err(Error { inner: InnerError::OutboundError(error) }),
                },
            )
        },
    }
}

/// What a closed connection changes: a direct one is forgotten.
pub open spec fn closed(
    before: Behaviour,
    after: Behaviour,
    peer: PeerId,
    connection: ConnectionId,
    endpoint: ConnectedPoint,
) -> bool {
    &&& after == (Behaviour { direct_connections: after.direct_connections, ..before })
    &&& after.direct_connections@ == (if endpoint.relayed() {
        before.direct_connections@
    } else {
        without_item(before.direct_connections@, (peer, connection))
    })
}

/// What the swarm's news change.
pub open spec fn news_handled(before: Behaviour, after: Behaviour, event: FromSwarm) -> bool {
    match event {
        FromSwarm::ConnectionClosed { peer_id, connection_id, endpoint, .. } => closed(
            before,
            after,
            peer_id,
            connection_id,
            endpoint,
        ),
        FromSwarm::DialFailure { peer_id, connection_id, .. } => dial_failed(
            before,
            after,
            peer_id,
            connection_id,
        ),
        _ => after == before,
    }
}

/// What a failed dial changes.
pub open spec fn dial_failed(
    before: Behaviour,
    after: Behaviour,
    peer_id: Option<PeerId>,
    failed: ConnectionId,
) -> bool {
    let relayed_of = before.direct_to_relayed_connections.entries@;
    let relayed = relayed_of[key_index(relayed_of, failed)].1;
    let attempts = before.outgoing_direct_connection_attempts.entries@;
    if peer_id is Some && has_key(relayed_of, failed) && has_key(attempts, (relayed, peer_id->0)) {
        let peer = peer_id->0;
        let attempt = attempts[key_index(attempts, (relayed, peer))].1;
        &&& queued_one(before, after)
        &&& after.queued_events@.last() == (if attempt < MAX_NUMBER_OF_UPGRADE_ATTEMPTS {
            ToSwarm::<Event, Command>::NotifyHandler {
                peer_id: peer,
                handler: NotifyHandler::One(relayed),
                event: Command::Connect,
            }
        } else {
            ToSwarm::GenerateEvent(
                Event {
                    remote_peer_id: peer,
                    result: Err(
                        Error {
                            inner: InnerError::AttemptsExceeded(MAX_NUMBER_OF_UPGRADE_ATTEMPTS),
                        },
                    ),
                },
            )
        })
    } else {
        after == before
    }
}

/// Whether the events of `after` are those of `before`, with the success of an attempt
/// behind them if it is told.
pub open spec fn success_told(
    before: Behaviour,
    after: Behaviour,
    peer: PeerId,
    connection: ConnectionId,
    told: bool,
) -> bool {
    if told {
        &&& after.queued_events@.len() == before.queued_events@.len() + 1
        &&& after.queued_events@.drop_last() == before.queued_events@
        &&& is_success(after.queued_events@.last(), peer, connection)
    } else {
        after.queued_events@ == before.queued_events@
    }
}

/// What a new connection that the remote peer dialed changes, and the handler that it gets.
pub open spec fn inbound_established(
    before: Behaviour,
    after: Behaviour,
    connection: ConnectionId,
    peer: PeerId,
    local_addr: Multiaddr,
    remote_addr: Multiaddr,
    handler: NewHandler,
) -> bool {
    if spec_is_relayed(local_addr) {
        &&& after == before
        &&& handler matches NewHandler::Relayed { endpoint, holepunch_candidates, command }
        &&& endpoint == (ConnectedPoint::Listener { local_addr, send_back_addr: remote_addr })
        &&& holepunch_candidates@ == before.address_candidates@
        &&& command == Some(Command::Connect)
    } else {
        &&& handler is Direct
        &&& after == (Behaviour {
            queued_events: after.queued_events,
            direct_connections: after.direct_connections,
            holepunch_in_progress: after.holepunch_in_progress,
            ..before
        })
        &&& after.direct_connections@ == with_item(before.direct_connections@, (peer, connection))
        &&& after.holepunch_in_progress@ == without_item(before.holepunch_in_progress@, peer)
        &&& success_told(
            before,
            after,
            peer,
            connection,
            before.holepunch_in_progress@.contains(peer),
        )
    }
}

/// What a new connection that the local node dialed changes, and the handler that it gets.
pub open spec fn outbound_established(
    before: Behaviour,
    after: Behaviour,
    connection: ConnectionId,
    peer: PeerId,
    addr: Multiaddr,
    role_override: Endpoint,
    port_use: PortUse,
    handler: NewHandler,
) -> bool {
    let relayed_of = before.direct_to_relayed_connections.entries@;
    let relayed = relayed_of[key_index(relayed_of, connection)].1;
    let own = has_key(relayed_of, connection);
    if spec_is_relayed(addr) {
        &&& after == before
        &&& handler matches NewHandler::Relayed { endpoint, holepunch_candidates, command }
        &&& endpoint == (ConnectedPoint::Dialer { address: addr, role_override, port_use })
        &&& holepunch_candidates@ == before.address_candidates@
        &&& command is None
    } else {
        &&& handler is Direct
        &&& after == (Behaviour {
            queued_events: after.queued_events,
            direct_connections: after.direct_connections,
            holepunch_in_progress: after.holepunch_in_progress,
            outgoing_direct_connection_attempts: after.outgoing_direct_connection_attempts,
            ..before
        })
        &&& after.direct_connections@ == with_item(before.direct_connections@, (peer, connection))
        &&& after.outgoing_direct_connection_attempts.entries@ == (if own {
            entries_remove(
                before.outgoing_direct_connection_attempts.entries@,
                (relayed, peer),
            )
        } else {
            before.outgoing_direct_connection_attempts.entries@
        })
        &&& after.holepunch_in_progress@ == (if own {
            without_item(before.holepunch_in_progress@, peer)
        } else {
            before.holepunch_in_progress@
        })
        &&& success_told(
            before,
            after,
            peer,
            connection,
            own && before.holepunch_in_progress@.contains(peer),
        )
    }
}

/// Parts addresses into those that are reached over QUIC and the others, in order.
fn partition_quic(addresses: Vec<Multiaddr>) -> (r: (Vec<Multiaddr>, Vec<Multiaddr>))
    ensures
        r.0@ == addresses@.filter(over_quic()),
        r.1@ == addresses@.filter(not_over_quic()),
{
    let mut quic: Vec<Multiaddr> = Vec::new();
    let mut other: Vec<Multiaddr> = Vec::new();
    let n: usize = addresses.len();
    let mut i: usize = 0;
    proof {
        reveal(Seq::filter);
        assert(addresses@.take(0).filter(over_quic()) =~= Seq::empty());
        assert(addresses@.take(0).filter(not_over_quic()) =~= Seq::empty());
    }
    while i < n
        invariant
            n == addresses@.len(),
            i <= n,
            quic@ == addresses@.take(i as int).filter(over_quic()),
            other@ == addresses@.take(i as int).filter(not_over_quic()),
        decreases n - i,
    {
        proof {
            reveal(Seq::filter);
            assert(addresses@.take(i + 1).drop_last() =~= addresses@.take(i as int));
            assert(addresses@.take(i + 1).last() == addresses@[i as int]);
        }
        if is_quic(&addresses[i]) {
            quic.push(addresses[i].clone());
        } else {
            other.push(addresses[i].clone());
        }
        i = i + 1;
    }
    assert(addresses@.take(n as int) =~= addresses@);
    (quic, other)
}

} // verus!
