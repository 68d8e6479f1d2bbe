//! Whether the node serves requests.

use libp2p_core::Multiaddr;
use libp2p_identity::PeerId;
use libp2p_swarm::ConnectionId;
use vstd::prelude::*;

use crate::kad::behaviour::told;
use crate::kad::behaviour::Behaviour;
use crate::kad::behaviour::Request;
use crate::kad::events::Event;
use crate::kad::protocol::HandlerIn;
use crate::kad::protocol::Mode;
use crate::net::external_addrs;
use crate::net::external_list;
use crate::swarm::NotifyHandler;
use crate::swarm::ToSwarm;

verus! {

/// What every connection handler is told when the mode has changed.
pub open spec fn mode_notices(connections: Seq<(ConnectionId, PeerId)>, mode: Mode) -> Seq<
    Request,
> {
    Seq::new(
        connections.len(),
        |i: int|
            ToSwarm::NotifyHandler {
                peer_id: connections[i].1,
                handler: NotifyHandler::One(connections[i].0),
                event: HandlerIn::ReconfigureMode { new_mode: mode },
            },
    )
}

/// The mode that external addresses call for: a node with one serves requests.
pub open spec fn mode_for(addrs: Seq<Multiaddr>) -> Mode {
    if addrs.len() == 0 {
        Mode::Client
    } else {
        Mode::Server
    }
}

/// What the choice of the mode by the external addresses changes.
pub open spec fn mode_determined<S>(before: Behaviour<S>, after: Behaviour<S>) -> bool {
    let mode = mode_for(external_addrs(before.external_addresses));
    let notices = before.queued_events@ + mode_notices(before.connections.entries@, mode);
    &&& after == (Behaviour { mode, queued_events: after.queued_events, ..before })
    &&& after.queued_events@ == (if mode == before.mode {
        notices
    } else {
        notices.push(told(Event::ModeChanged { new_mode: mode }))
    })
}

/// What setting the mode changes: a given one is kept from now on, and without one it is
/// chosen by the external addresses.
pub open spec fn mode_set<S>(before: Behaviour<S>, after: Behaviour<S>, mode: Option<Mode>) -> bool {
    match mode {
        Some(mode) => {
            &&& after == (Behaviour {
                mode,
                auto_mode: false,
                no_events_waker: false,
                queued_events: after.queued_events,
                ..before
            })
            &&& after.queued_events@ == before.queued_events@ + mode_notices(
                before.connections.entries@,
                mode,
            )
        },
        None => mode_determined(
            Behaviour { auto_mode: true, no_events_waker: false, ..before },
            after,
        ),
    }
}

impl<TStore> Behaviour<TStore> {
    /// Sets whether the node serves requests, and says whether somebody has to be woken.
    pub fn set_mode(&mut self, mode: Option<Mode>) -> (wake: bool)
        requires
            old(self).wf(),
        ensures
            final(self).wf(),
            mode_set(*old(self), *final(self), mode),
            wake == old(self).no_events_waker,
    {
        let wake = self.no_events_waker;
        self.no_events_waker = false;
        match mode {
            Some(mode) => {
                self.mode = mode;
                self.auto_mode = false;
                self.reconfigure_mode();
            },
            None => {
                self.auto_mode = true;
                self.determine_mode_from_external_addresses();
            },
        }
        wake
    }

    /// Tells every connection handler the mode.
    fn reconfigure_mode(&mut self)
        requires
            old(self).wf(),
        ensures
            final(self).wf(),
            *final(self) == (Behaviour { queued_events: final(self).queued_events, ..*old(self) }),
            final(self).queued_events@ == old(self).queued_events@ + mode_notices(
                old(self).connections.entries@,
                old(self).mode,
            ),
    {
        let ghost before = *self;
        let n: usize = self.connections.entries.len();
        let mut i: usize = 0;
        let ghost notices = mode_notices(before.connections.entries@, before.mode);
        assert(self.queued_events@ =~= before.queued_events@ + notices.take(0));
        while i < n
            invariant
                n == before.connections.entries@.len(),
                i <= n,
                before.wf(),
                notices == mode_notices(before.connections.entries@, before.mode),
                *self == (Behaviour { queued_events: self.queued_events, ..before }),
                self.queued_events@ == before.queued_events@ + notices.take(i as int),
            decreases n - i,
        {
            let ghost queued = self.queued_events@;
            let (conn_id, peer_id) = self.connections.entries[i];
            self.queued_events.push_back(
                ToSwarm::NotifyHandler {
                    peer_id,
                    handler: NotifyHandler::One(conn_id),
                    event: HandlerIn::ReconfigureMode { new_mode: self.mode },
                },
            );
            proof {
                assert(notices.take(i + 1) =~= notices.take(i as int).push(notices[i as int]));
                assert(self.queued_events@ =~= before.queued_events@ + notices.take(i + 1));
            }
            i = i + 1;
        }
        assert(notices.take(n as int) =~= notices);
    }

    /// Chooses the mode by the external addresses.
    pub fn determine_mode_from_external_addresses(&mut self)
        requires
            old(self).wf(),
        ensures
            final(self).wf(),
            mode_determined(*old(self), *final(self)),
    {
        let old_mode = self.mode;
        let addrs = external_list(&self.external_addresses);
        self.mode = if addrs.is_empty() {
            Mode::Client
        } else {
            Mode::Server
        };
        self.reconfigure_mode();
        if old_mode != self.mode {
            self.queued_events.push_back(
                ToSwarm::GenerateEvent(Event::ModeChanged { new_mode: self.mode }),
            );
        }
    }
}

} // verus!
