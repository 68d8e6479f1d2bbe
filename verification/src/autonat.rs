//! The server side of reachability tests.
//!
//! A client asks the server to dial one of its addresses. The behaviour dials it from a new
//! port, hands the command to the handler of the connection that comes about, and answers
//! the command itself if none does.

use std::collections::VecDeque;

use libp2p_core::Multiaddr;
use libp2p_identity::PeerId;
use libp2p_swarm::ConnectionId;
use rand_core::OsRng;
use vstd::prelude::*;

use crate::assoc::entries_insert;
use crate::assoc::entries_map;
use crate::assoc::entries_remove;
use crate::assoc::has_key;
use crate::assoc::key_index;
use crate::assoc::lemma_entries_insert;
use crate::assoc::lemma_entries_remove;
use crate::assoc::lemma_insert_get;
use crate::assoc::lemma_key_index;
use crate::assoc::Assoc;
use crate::net::connection_of;
use crate::net::dial_addresses_from_new_port;
use crate::net::dial_connection;
use crate::net::dial_view;
use crate::net::DialView;
use crate::swarm::FromSwarm;
use crate::swarm::PeerCondition;
use crate::swarm::ToSwarm;

verus! {

/// `std::io::Error`, why a test failed.
#[verifier::external_type_specification]
#[verifier::external_body]
pub struct ExIoError(std::io::Error);

/// `rand_core::OsRng`, the random numbers of the operating system.
#[verifier::external_type_specification]
#[verifier::external_body]
pub struct ExOsRng(OsRng);

/// `rand_core::OsRng`: the random numbers of the operating system. Nothing is claimed of
/// them.
#[verifier::external_body]
fn os_rng() -> (r: OsRng) {
    OsRng
}

/// The outcome of a test, for the application.
#[derive(Debug)]
pub struct Event {
    /// All addresses that the client submitted.
    pub all_addrs: Vec<Multiaddr>,
    /// The address that was tested.
    pub tested_addr: Multiaddr,
    /// The client.
    pub client: PeerId,
    /// The number of bytes that the client had to send first.
    pub data_amount: usize,
    /// Whether the address could be dialed.
    pub result: Result<(), std::io::Error>,
}

/// How a dial back went.
#[derive(Clone, Copy, Debug, PartialEq, Eq, Structural)]
pub enum DialBackStatus {
    /// The address could not be dialed.
    DialErr,
    /// The address could be dialed, and the rest failed.
    DialBackErr,
}

/// The command to dial an address, with the channel that the answer goes to.
#[derive(Debug)]
pub struct DialBackCommand<C> {
    /// The address to be dialed.
    pub addr: Multiaddr,
    /// The number that proves to the client that it was dialed.
    pub nonce: u64,
    /// Where the answer goes.
    pub back_channel: C,
}

/// An answer that is to be sent.
#[derive(Debug)]
pub struct Answer<C> {
    /// Where the answer goes.
    pub back_channel: C,
    /// The answer.
    pub status: Result<(), DialBackStatus>,
}

/// What a connection handler reports.
#[derive(Debug)]
pub enum HandlerEvent<C> {
    /// A dial back is over.
    DialBackDone(Result<(), DialBackStatus>),
    /// An address is to be dialed.
    DialBack(DialBackCommand<C>),
    /// A test is over.
    StatusUpdate(Event),
}

/// The handler that a new connection gets.
#[derive(Debug)]
pub enum NewHandler<R, C> {
    /// A handler that carries out a dial back.
    DialBack(DialBackCommand<C>),
    /// A handler that does nothing.
    Dummy,
    /// A handler that takes requests.
    DialRequest {
        /// The peer at the other end.
        client: PeerId,
        /// The address that the peer is seen at.
        observed_multiaddr: Multiaddr,
        /// The source of random numbers.
        rng: R,
    },
}

/// A behaviour that dials addresses on behalf of clients.
pub struct Behaviour<R, C> {
    /// The commands that are being carried out, by the connection that is to come about.
    pub dialing_dial_back: Assoc<ConnectionId, DialBackCommand<C>>,
    /// What polling will yield, first to last.
    pub pending_events: VecDeque<ToSwarm<Event, ()>>,
    /// The source of random numbers.
    pub rng: R,
}

/// The dial of a client that a command asks for.
pub open spec fn dial_back(peer: PeerId, addr: Multiaddr) -> DialView {
    DialView {
        peer,
        condition: PeerCondition::Always,
        addresses: seq![addr],
        extend_addresses: false,
        as_listener: false,
        new_port: true,
    }
}

/// What a handler's report changes.
pub open spec fn reported<R, C>(
    before: Behaviour<R, C>,
    after: Behaviour<R, C>,
    peer: PeerId,
    event: HandlerEvent<C>,
) -> bool {
    match event {
        HandlerEvent::DialBackDone(_) => after == before,
        HandlerEvent::DialBack(cmd) => {
            let queued = after.pending_events@.last();
            &&& after == (Behaviour {
                dialing_dial_back: after.dialing_dial_back,
                pending_events: after.pending_events,
                ..before
            })
            &&& after.pending_events@ == before.pending_events@.push(queued)
            &&& queued matches ToSwarm::Dial { opts }
            &&& dial_view(opts) == dial_back(peer, cmd.addr)
            &&& after.dialing_dial_back.entries@ == entries_insert(
                before.dialing_dial_back.entries@,
                dial_connection(opts),
                cmd,
            )
        },
        HandlerEvent::StatusUpdate(status) => {
            &&& after == (Behaviour { pending_events: after.pending_events, ..before })
            &&& after.pending_events@ == before.pending_events@.push(
                ToSwarm::GenerateEvent(status),
            )
        },
    }
}

/// What a connection that the local node dialed changes, and the handler that it gets: the
/// command that it was dialed for is handed over.
pub open spec fn dialed_out<R, C>(
    before: Behaviour<R, C>,
    after: Behaviour<R, C>,
    connection: ConnectionId,
    handler: NewHandler<R, C>,
) -> bool {
    let entries = before.dialing_dial_back.entries@;
    &&& after == (Behaviour { dialing_dial_back: after.dialing_dial_back, ..before })
    &&& after.dialing_dial_back.entries@ == entries_remove(entries, connection)
    &&& handler == (if has_key(entries, connection) {
        NewHandler::DialBack(entries[key_index(entries, connection)].1)
    } else {
        NewHandler::<R, C>::Dummy
    })
}

/// What a failed dial changes, and the answer that is to be sent: the command that the dial
/// was for has failed.
pub open spec fn dial_failed<R, C>(
    before: Behaviour<R, C>,
    after: Behaviour<R, C>,
    connection: ConnectionId,
    answer: Option<Answer<C>>,
) -> bool {
    let entries = before.dialing_dial_back.entries@;
    &&& after == (Behaviour { dialing_dial_back: after.dialing_dial_back, ..before })
    &&& after.dialing_dial_back.entries@ == entries_remove(entries, connection)
    &&& answer == (if has_key(entries, connection) {
        Some(
            Answer {
                back_channel: entries[key_index(entries, connection)].1.back_channel,
                status: Err(DialBackStatus::DialErr),
            },
        )
    } else {
        None::<Answer<C>>
    })
}

/// What a connection that the remote peer dialed changes, and the handler that it gets.
pub open spec fn accepted<R: Clone, C>(
    before: Behaviour<R, C>,
    after: Behaviour<R, C>,
    peer: PeerId,
    remote_addr: Multiaddr,
    handler: NewHandler<R, C>,
) -> bool {
    &&& after == before
    &&& handler matches NewHandler::DialRequest { client, observed_multiaddr, rng } && client == peer
        && observed_multiaddr == remote_addr && cloned(before.rng, rng)
}

/// What the swarm's news change, and the answer that is to be sent.
pub open spec fn news_handled<R, C>(
    before: Behaviour<R, C>,
    after: Behaviour<R, C>,
    event: FromSwarm,
    answer: Option<Answer<C>>,
) -> bool {
    match event {
        FromSwarm::DialFailure { connection_id, .. } => dial_failed(
            before,
            after,
            connection_id,
            answer,
        ),
        _ => after == before && answer is None,
    }
}

/// What polling changes, and what it yields.
pub open spec fn polled<R, C>(
    before: Behaviour<R, C>,
    after: Behaviour<R, C>,
    r: Option<ToSwarm<Event, ()>>,
) -> bool {
    &&& after == (Behaviour { pending_events: after.pending_events, ..before })
    &&& if before.pending_events@.len() > 0 {
        &&& r == Some(before.pending_events@[0])
        &&& after.pending_events@ == before.pending_events@.drop_first()
    } else {
        r is None && after.pending_events@ == before.pending_events@
    }
}

impl<C> Default for Behaviour<OsRng, C> {
    fn default() -> (r: Self)
        ensures
            r.wf(),
            r.dialing_dial_back.entries@.len() == 0,
            r.pending_events@.len() == 0,
    {
        Self::new(os_rng())
    }
}

impl<R, C> Behaviour<R, C> {
    /// What holds of a behaviour at all times.
    pub open spec fn wf(&self) -> bool {
        self.dialing_dial_back.wf()
    }

    /// A behaviour that hands `rng` to its handlers.
    pub fn new(rng: R) -> (r: Self)
        ensures
            r.wf(),
            r.dialing_dial_back.entries@.len() == 0,
            r.pending_events@.len() == 0,
            r.rng == rng,
    {
        Behaviour { dialing_dial_back: Assoc::new(), pending_events: VecDeque::new(), rng }
    }

    /// Handles a new connection that the remote peer dialed: it gets a handler that takes
    /// requests.
    pub fn handle_established_inbound_connection(
        &mut self,
        peer: PeerId,
        remote_addr: &Multiaddr,
    ) -> (r: NewHandler<R, C>) where R: Clone
        ensures
            accepted(*old(self), *final(self), peer, *remote_addr, r),
    {
        NewHandler::DialRequest {
            client: peer,
            observed_multiaddr: remote_addr.clone(),
            rng: self.rng.clone(),
        }
    }

    /// Handles a new connection that the local node dialed.
    pub fn handle_established_outbound_connection(
        &mut self,
        connection_id: ConnectionId,
    ) -> (r: NewHandler<R, C>)
        requires
            old(self).wf(),
        ensures
            final(self).wf(),
            dialed_out(*old(self), *final(self), connection_id, r),
    {
        match self.dialing_dial_back.remove(&connection_id) {
            Some(cmd) => NewHandler::DialBack(cmd),
            None => NewHandler::Dummy,
        }
    }

    /// Handles what the swarm tells, and returns the answer that is to be sent.
    pub fn on_swarm_event(&mut self, event: FromSwarm) -> (r: Option<Answer<C>>)
        requires
            old(self).wf(),
        ensures
            final(self).wf(),
            news_handled(*old(self), *final(self), event, r),
    {
        if let FromSwarm::DialFailure { connection_id, .. } = event {
            if let Some(cmd) = self.dialing_dial_back.remove(&connection_id) {
                return Some(
                    Answer {
                        back_channel: cmd.back_channel,
                        status: Err(DialBackStatus::DialErr),
                    },
                );
            }
        }
        None
    }

    /// Handles what a connection handler reports.
    pub fn on_connection_handler_event(&mut self, peer_id: PeerId, event: HandlerEvent<C>)
        requires
            old(self).wf(),
        ensures
            final(self).wf(),
            reported(*old(self), *final(self), peer_id, event),
    {
        match event {
            HandlerEvent::DialBackDone(_) => {},
            HandlerEvent::DialBack(cmd) => {
                let mut addresses: Vec<Multiaddr> = Vec::new();
                addresses.push(cmd.addr.clone());
                assert(addresses@ =~= seq![cmd.addr]);
                let opts = dial_addresses_from_new_port(peer_id, addresses);
                let conn_id = connection_of(&opts);
                self.dialing_dial_back.insert(conn_id, cmd);
                self.pending_events.push_back(ToSwarm::Dial { opts });
            },
            HandlerEvent::StatusUpdate(status) => {
                self.pending_events.push_back(ToSwarm::GenerateEvent(status));
            },
        }
    }

    /// Yields the first queued event.
    pub fn poll(&mut self) -> (r: Option<ToSwarm<Event, ()>>)
        requires
            old(self).wf(),
        ensures
            final(self).wf(),
            polled(*old(self), *final(self), r),
    {
        let r = self.pending_events.pop_front();
        proof {
            if old(self).pending_events@.len() > 0 {
                assert(self.pending_events@ =~= old(self).pending_events@.drop_first());
            }
        }
        r
    }
}

/// A command is handed to the connection that its dial leads to, or it is answered with an
/// error when the dial fails, and after either it is neither handed over nor answered again.
pub proof fn law_command_settled_once<R, C>(
    start: Behaviour<R, C>,
    asked: Behaviour<R, C>,
    connected: Behaviour<R, C>,
    failed: Behaviour<R, C>,
    late: Behaviour<R, C>,
    peer: PeerId,
    cmd: DialBackCommand<C>,
    handler: NewHandler<R, C>,
    answer: Option<Answer<C>>,
    late_answer: Option<Answer<C>>,
)
    requires
        start.wf(),
        reported(start, asked, peer, HandlerEvent::DialBack(cmd)),
        ({
            let connection = dial_connection(asked.pending_events@.last()->opts);
            &&& dialed_out(asked, connected, connection, handler)
            &&& dial_failed(asked, failed, connection, answer)
            &&& dial_failed(connected, late, connection, late_answer)
        }),
    ensures
        handler == NewHandler::<R, C>::DialBack(cmd),
        answer == Some(
            Answer { back_channel: cmd.back_channel, status: Err(DialBackStatus::DialErr) },
        ),
        late_answer is None,
        late.dialing_dial_back.entries@ == connected.dialing_dial_back.entries@,
{
    let connection = dial_connection(asked.pending_events@.last()->opts);
    let before = start.dialing_dial_back.entries@;
    let entries = asked.dialing_dial_back.entries@;
    lemma_entries_insert(before, connection, cmd);
    let at = if has_key(before, connection) {
        key_index(before, connection)
    } else {
        before.len() as int
    };
    assert(entries[at] == (connection, cmd));
    lemma_key_index(entries, at);
    lemma_entries_remove(entries, connection);
    let left = entries_remove(entries, connection);
    assert(!has_key(left, connection)) by {
        if has_key(left, connection) {
            let i = key_index(left, connection);
            let i0 = if i < at {
                i
            } else {
                i + 1
            };
            assert(left[i] == entries[i0]);
            lemma_key_index(entries, i0);
        }
    }
}

/// A command to dial back leads to one dial of the client, at the address that the command names
/// and at no other, from a new port and whatever connections there are. It comes behind what was
/// queued before, and the command is kept for the connection that the dial leads to.
pub proof fn law_command_is_dialed<R, C>(
    before: Behaviour<R, C>,
    after: Behaviour<R, C>,
    peer: PeerId,
    cmd: DialBackCommand<C>,
    other: ConnectionId,
)
    requires
        before.wf(),
        reported(before, after, peer, HandlerEvent::DialBack(cmd)),
    ensures
        after.pending_events@.len() == before.pending_events@.len() + 1,
        before.pending_events@.is_prefix_of(after.pending_events@),
        after.pending_events@.last() matches ToSwarm::Dial { opts } && {
            let dial = dial_view(opts);
            let old_commands = before.dialing_dial_back.entries@;
            let commands = after.dialing_dial_back.entries@;
            &&& dial.peer == peer
            &&& dial.addresses.len() == 1
            &&& dial.addresses[0] == cmd.addr
            &&& dial.condition == PeerCondition::Always
            &&& !dial.extend_addresses
            &&& !dial.as_listener
            &&& dial.new_port
            &&& has_key(commands, dial_connection(opts))
            &&& commands[key_index(commands, dial_connection(opts))].1 == cmd
            &&& other != dial_connection(opts) ==> {
                &&& has_key(commands, other) <==> has_key(old_commands, other)
                &&& has_key(commands, other) ==> commands[key_index(commands, other)].1
                    == old_commands[key_index(old_commands, other)].1
            }
        },
        after.rng == before.rng,
{
    let n = before.pending_events@.len() as int;
    assert(after.pending_events@.subrange(0, n) =~= before.pending_events@);
    let connection = dial_connection(after.pending_events@.last()->opts);
    lemma_insert_get(before.dialing_dial_back.entries@, connection, cmd, connection);
    lemma_insert_get(before.dialing_dial_back.entries@, connection, cmd, other);
}

/// The outcome of a test is told the application as it is, and the end of a dial back changes
/// nothing.
pub proof fn law_outcome_is_told<R, C>(
    before: Behaviour<R, C>,
    after: Behaviour<R, C>,
    peer: PeerId,
    event: HandlerEvent<C>,
)
    requires
        reported(before, after, peer, event),
    ensures
        event matches HandlerEvent::StatusUpdate(status) ==> {
            &&& after.pending_events@.len() == before.pending_events@.len() + 1
            &&& before.pending_events@.is_prefix_of(after.pending_events@)
            &&& after.pending_events@.last() matches ToSwarm::GenerateEvent(e) && e == status
            &&& after.dialing_dial_back == before.dialing_dial_back
            &&& after.rng == before.rng
        },
        event is DialBackDone ==> after == before,
{
    let n = before.pending_events@.len() as int;
    if event is StatusUpdate {
        assert(after.pending_events@.subrange(0, n) =~= before.pending_events@);
    }
}

/// A connection, or the failure of a dial, settles the command that it is for and no other one.
/// A connection that was dialed for none gets a handler that does nothing, the failure of such a
/// dial is not answered, and no other news of the swarm changes anything.
pub proof fn law_only_own_command_is_settled<R, C>(
    before: Behaviour<R, C>,
    connected: Behaviour<R, C>,
    told: Behaviour<R, C>,
    connection: ConnectionId,
    handler: NewHandler<R, C>,
    event: FromSwarm,
    answer: Option<Answer<C>>,
    other: ConnectionId,
)
    requires
        before.wf(),
        dialed_out(before, connected, connection, handler),
        news_handled(before, told, event, answer),
    ensures
        has_key(connected.dialing_dial_back.entries@, other) <==> has_key(
            before.dialing_dial_back.entries@,
            other,
        ) && other != connection,
        !has_key(before.dialing_dial_back.entries@, connection) ==> handler is Dummy,
        has_key(before.dialing_dial_back.entries@, connection) ==> handler is DialBack,
        connected.pending_events == before.pending_events,
        connected.rng == before.rng,
        told.pending_events == before.pending_events,
        event matches FromSwarm::DialFailure { connection_id, .. } ==> {
            &&& has_key(told.dialing_dial_back.entries@, other) <==> has_key(
                before.dialing_dial_back.entries@,
                other,
            ) && other != connection_id
            &&& answer is Some <==> has_key(before.dialing_dial_back.entries@, connection_id)
        },
        !(event is DialFailure) ==> told == before && answer is None,
{
    let entries = before.dialing_dial_back.entries@;
    lemma_entries_remove(entries, connection);
    let left = entries_remove(entries, connection);
    assert(entries_map(left).dom().contains(other) == has_key(left, other));
    assert(entries_map(entries).dom().contains(other) == has_key(entries, other));
    if let FromSwarm::DialFailure { connection_id, .. } = event {
        lemma_entries_remove(entries, connection_id);
        let kept = entries_remove(entries, connection_id);
        assert(entries_map(kept).dom().contains(other) == has_key(kept, other));
    }
}

/// A peer that connects gets a handler that takes its requests, and knows it by its peer ID and
/// the address that it is seen at. What is queued is yielded in order.
pub proof fn law_clients_are_served<R: Clone, C>(
    before: Behaviour<R, C>,
    after: Behaviour<R, C>,
    yielded: Behaviour<R, C>,
    peer: PeerId,
    remote_addr: Multiaddr,
    handler: NewHandler<R, C>,
    r: Option<ToSwarm<Event, ()>>,
)
    requires
        accepted(before, after, peer, remote_addr, handler),
        polled(before, yielded, r),
    ensures
        after == before,
        handler matches NewHandler::DialRequest { client, observed_multiaddr, .. } && client == peer
            && observed_multiaddr == remote_addr,
        match r {
            Some(request) => before.pending_events@ == seq![request] + yielded.pending_events@,
            None => before.pending_events@.len() == 0 && yielded.pending_events@.len() == 0,
        },
        yielded.dialing_dial_back == before.dialing_dial_back,
        yielded.rng == before.rng,
{
    if r is Some {
        assert(before.pending_events@ =~= seq![r->0] + yielded.pending_events@);
    }
}

} // verus!
