//! How the behaviour is driven.
//!
//! Polling starts with [`PollInput::Begin`]. Whenever the answer is
//! [`PollOutput::AskLookups`], it goes on with a decision on the running queries.

use libp2p_identity::PeerId;
use vstd::prelude::*;

use crate::assoc::entries_insert;
use crate::assoc::has_key;
use crate::assoc::key_index;
use crate::assoc::Ident;
use crate::kad::answers::one_query;
use crate::kad::behaviour::dials_peer;
use crate::kad::behaviour::queued_one;
use crate::kad::behaviour::told;
use crate::kad::behaviour::Behaviour;
use crate::kad::behaviour::Request;
use crate::kad::bootstrap::Status;
use crate::kad::events::AddProviderContext;
use crate::kad::events::AddProviderPhase;
use crate::kad::events::Event;
use crate::kad::events::NoKnownPeers;
use crate::kad::events::PutRecordContext;
use crate::kad::events::QueryInfo;
use crate::kad::events::Quorum;
use crate::kad::finish::buckets_to_refresh;
use crate::kad::finish::is_first_lookup;
use crate::kad::finish::is_request;
use crate::kad::finish::lookups_left;
use crate::kad::finish::query_done;
use crate::kad::finish::query_timed_out;
use crate::kad::finish::refreshes;
use crate::kad::jobs::AddProviderJob;
use crate::kad::jobs::PutRecordJob;
use crate::kad::jobs::JOBS_MAX_NEW_QUERIES;
use crate::kad::jobs::JOBS_MAX_QUERIES;
use crate::kad::kbucket::has_peer;
use crate::kad::kbucket::NodeStatus;
use crate::kad::kbucket::TableView;
use crate::kad::key::KeyBytes;
use crate::kad::lookups::announcement_started;
use crate::kad::lookups::bootstrap_started;
use crate::kad::lookups::is_peer;
use crate::kad::lookups::put_started;
use crate::kad::protocol::HandlerIn;
use crate::kad::protocol::QueryId;
use crate::kad::query::answered;
use crate::kad::query::contact_is_new;
use crate::kad::query::lemma_pool_put;
use crate::kad::query::lemma_state_insert;
use crate::kad::query::pool_polled;
use crate::kad::query::LookupStep;
use crate::kad::query::PeerState;
use crate::kad::query::PoolState;
use crate::kad::query::Query;
use crate::kad::query::QueryPool;
use crate::kad::record::ProviderRecord;
use crate::kad::record::Record;
use crate::kad::routing::tells_update;
use crate::net::contains_peer;
use crate::net::dial_peer;
use crate::net::is_present;
use crate::swarm::NotifyHandler;
use crate::swarm::ToSwarm;
use crate::time::Moment;
use crate::time::MAX_ELAPSED;

verus! {

/// What polling is given.
#[derive(Clone, Copy, Debug)]
pub enum PollInput {
    /// Polling starts.
    Begin,
    /// A decision on the running queries.
    Lookup(LookupStep),
}

/// What polling yields.
#[derive(Debug)]
pub enum PollOutput {
    /// Something to be done.
    Ready(Request),
    /// A decision on the running queries is needed.
    AskLookups,
    /// Nothing to be done for now.
    Pending,
}

/// The smaller of two numbers.
pub open spec fn lesser(a: nat, b: nat) -> nat {
    if a <= b {
        a
    } else {
        b
    }
}

/// The number of queries that jobs may start.
pub open spec fn capacity(pool: QueryPool) -> nat {
    let n = pool.queries.entries@.len();
    if n >= JOBS_MAX_QUERIES {
        0
    } else {
        (JOBS_MAX_QUERIES - n) as nat
    }
}

/// The provider records whose turn it is.
pub open spec fn providers_ready(job: Option<AddProviderJob>) -> Seq<ProviderRecord> {
    match job {
        Some(job) => job.ready@,
        None => Seq::empty(),
    }
}

/// The records whose turn it is.
pub open spec fn records_ready(job: Option<PutRecordJob>) -> Seq<Record> {
    match job {
        Some(job) => job.ready@,
        None => Seq::empty(),
    }
}

/// The number of queries that a job may start at once.
pub open spec fn allowed(room: nat) -> nat {
    lesser(JOBS_MAX_NEW_QUERIES as nat, room)
}

/// What is left for the second job once the first has taken what it found: if it found less
/// than it was allowed, that much less.
pub open spec fn room_after(room: nat, found: nat, present: bool) -> nat {
    if present && found < allowed(room) {
        (room - found) as nat
    } else {
        room
    }
}

/// What the repeated announcement of providers changes, one after the other.
pub open spec fn announced_each<S>(
    before: Behaviour<S>,
    after: Behaviour<S>,
    records: Seq<ProviderRecord>,
) -> bool
    decreases records.len(),
{
    if records.len() == 0 {
        after == before
    } else {
        exists|mid: Behaviour<S>, id: QueryId|
            announced_each(before, mid, records.drop_last()) && #[trigger] announcement_started(
                mid,
                after,
                records.last().key,
                AddProviderContext::Republish,
                id,
            )
    }
}

/// Why a record is stored when its turn has come.
pub open spec fn turn_context(record: Record, local: PeerId) -> PutRecordContext {
    if record.publisher == Some(local) {
        PutRecordContext::Republish
    } else {
        PutRecordContext::Replicate
    }
}

/// What the repeated storing of records changes, one after the other.
pub open spec fn stored_each<S>(
    before: Behaviour<S>,
    after: Behaviour<S>,
    records: Seq<Record>,
) -> bool
    decreases records.len(),
{
    if records.len() == 0 {
        after == before
    } else {
        exists|mid: Behaviour<S>, id: QueryId|
            stored_each(before, mid, records.drop_last()) && #[trigger] put_started(
                mid,
                after,
                records.last(),
                Quorum::All,
                turn_context(records.last(), before.local_peer_id),
                id,
            )
    }
}

/// Whether a job has yielded its first `n` records.
pub open spec fn providers_taken(
    before: Option<AddProviderJob>,
    after: Option<AddProviderJob>,
    n: int,
) -> bool {
    match before {
        Some(job) => after matches Some(job2) && job2 == (AddProviderJob {
            ready: job2.ready,
            ..job
        }) && job2.ready@ == job.ready@.skip(n),
        None => after is None,
    }
}

/// Whether a job has yielded its first `n` records.
pub open spec fn records_taken(
    before: Option<PutRecordJob>,
    after: Option<PutRecordJob>,
    n: int,
) -> bool {
    match before {
        Some(job) => after matches Some(job2) && job2 == (PutRecordJob {
            ready: job2.ready,
            ..job
        }) && job2.ready@ == job.ready@.skip(n),
        None => after is None,
    }
}

/// What the jobs change: the provider records and records whose turn it is are announced and
/// stored, as far as there is room for more queries.
pub open spec fn jobs_run<S>(before: Behaviour<S>, after: Behaviour<S>) -> bool {
    let room = capacity(before.queries);
    let providers = providers_ready(before.add_provider_job);
    let n = lesser(allowed(room), providers.len());
    let room2 = room_after(room, providers.len(), before.add_provider_job is Some);
    let records = records_ready(before.put_record_job);
    let m = lesser(allowed(room2), records.len());
    exists|first: Behaviour<S>, second: Behaviour<S>, third: Behaviour<S>|
        {
            &&& first == (Behaviour { add_provider_job: first.add_provider_job, ..before })
            &&& providers_taken(before.add_provider_job, first.add_provider_job, n as int)
            &&& #[trigger] announced_each(first, second, providers.take(n as int))
            &&& third == (Behaviour { put_record_job: third.put_record_job, ..second })
            &&& records_taken(before.put_record_job, third.put_record_job, m as int)
            &&& #[trigger] stored_each(third, after, records.take(m as int))
        }
}

/// What the start of polling changes before anything is yielded: the jobs run, and a
/// bootstrap is started if it is due.
pub open spec fn background_run<S>(before: Behaviour<S>, after: Behaviour<S>) -> bool {
    exists|mid: Behaviour<S>| #[trigger]
        jobs_run(before, mid) && {
            let asked = Behaviour {
                bootstrap_status: Status {
                    due: false,
                    ..mid.bootstrap_status
                },
                ..mid
            };
            if mid.bootstrap_status.due {
                exists|r: Result<QueryId, NoKnownPeers>| #[trigger]
                    bootstrap_started(asked, after, r)
            } else {
                after == asked
            }
        }
}

/// What yielding the next thing to be done changes, and what is yielded: the first queued
/// one, or else that a waiting peer got its place in the routing table.
pub open spec fn drained<S>(
    before: Behaviour<S>,
    after: Behaviour<S>,
    now: Moment,
    r: PollOutput,
) -> bool {
    let events = before.queued_events@;
    let (t, applied) = before.kbuckets@.applied_first(0, now);
    if events.len() > 0 {
        &&& r == PollOutput::Ready(events[0])
        &&& after == (Behaviour { queued_events: after.queued_events, ..before })
        &&& after.queued_events@ == events.drop_first()
    } else {
        match applied {
            Some(a) => {
                &&& after == (Behaviour {
                    kbuckets: after.kbuckets,
                    queued_events: after.queued_events,
                    ..before
                })
                &&& after.kbuckets@ == t
                &&& after.queued_events@ == seq![
                    Request::NewExternalAddrOfPeer {
                        peer_id: a.inserted.peer,
                        address: a.inserted.addrs[0],
                    },
                ]
                &&& r matches PollOutput::Ready(request)
                &&& tells_update(request, t, a.inserted.peer, true, a.inserted.addrs, a.evicted)
            },
            None => {
                &&& after == (Behaviour { kbuckets: after.kbuckets, ..before })
                &&& after.kbuckets@ == t
                &&& r is AskLookups
            },
        }
    }
}

/// Whether a query announces a provider, which is not answered.
pub open spec fn is_announcing(info: QueryInfo) -> bool {
    info matches QueryInfo::AddProvider { phase, .. } && phase is AddProvider
}

/// What the contact with a candidate changes in its query: an announcement counts as answered,
/// and the request waits for a connection if there is none.
pub open spec fn contact_noted(peer: PeerId, event: HandlerIn, waits: bool) -> spec_fn(
    Query,
    Query,
) -> bool {
    |before: Query, after: Query|
        {
            let sent = Query { pending_rpcs: before.pending_rpcs, ..after };
            &&& if is_announcing(before.info) {
                answered(before, sent, peer, Seq::empty())
            } else {
                sent == before
            }
            &&& after.pending_rpcs@ == (if waits {
                before.pending_rpcs@.push((peer, event))
            } else {
                before.pending_rpcs@
            })
        }
}

/// What the contact with a candidate changes: the request is sent, or the candidate is dialed.
pub open spec fn contact_made<S>(
    before: Behaviour<S>,
    after: Behaviour<S>,
    id: QueryId,
    peer: PeerId,
) -> bool {
    let entries = before.queries.queries.entries@;
    let info = entries[key_index(entries, id)].1.info;
    let connected = before.connected_peers@.contains(peer);
    let waits = !connected && peer != before.local_peer_id;
    &&& after == (Behaviour {
        queries: after.queries,
        queued_events: after.queued_events,
        ..before
    })
    &&& exists|event: HandlerIn| #[trigger]
        is_request(info, id, event) && {
            &&& one_query(
                before.queries,
                after.queries,
                id,
                contact_noted(peer, event, waits),
            )
            &&& if connected {
                after.queued_events@ == before.queued_events@.push(
                    ToSwarm::NotifyHandler { peer_id: peer, handler: NotifyHandler::Any, event },
                )
            } else if waits {
                &&& queued_one(before.queued_events@, after.queued_events@)
                &&& dials_peer(after.queued_events@.last(), peer)
            } else {
                after.queued_events == before.queued_events
            }
        }
}

/// What is yielded for a report, if there is one.
pub open spec fn outcome(event: Option<Event>) -> PollOutput {
    match event {
        Some(e) => PollOutput::Ready(told(e)),
        None => PollOutput::AskLookups,
    }
}

/// What a decision on the running queries changes, once the pool has carried it out, and what
/// is yielded.
pub open spec fn decision_handled<S>(
    before: Behaviour<S>,
    after: Behaviour<S>,
    state: PoolState,
    now: Moment,
    r: PollOutput,
) -> bool {
    match state {
        PoolState::Finished(q) => exists|event: Option<Event>, fresh: Seq<PeerId>|
            (is_first_lookup(q.info) ==> refreshes(before.kbuckets@, fresh))
                && #[trigger] query_done(before, after, q, fresh, event) && r == outcome(event),
        PoolState::Timeout(q) => exists|event: Option<Event>| #[trigger]
            query_timed_out(before, after, q, event) && r == outcome(event),
        PoolState::Contact(id, peer) => contact_made(before, after, id, peer) && r is AskLookups,
        PoolState::Idle => if before.queued_events@.len() == 0 {
            r is Pending && after == (Behaviour { no_events_waker: true, ..before })
        } else {
            drained(before, after, now, r)
        },
    }
}

/// What polling changes, and what it yields.
pub open spec fn polled<S>(
    before: Behaviour<S>,
    after: Behaviour<S>,
    input: PollInput,
    now: Moment,
    r: PollOutput,
) -> bool {
    match input {
        PollInput::Begin => exists|mid: Behaviour<S>| #[trigger]
            background_run(before, mid) && drained(mid, after, now, r),
        PollInput::Lookup(step) => exists|mid: Behaviour<S>, state: PoolState|
            {
                &&& mid == (Behaviour { queries: mid.queries, ..before })
                &&& pool_polled(before.queries, mid.queries, step, now, state)
                &&& #[trigger] decision_handled(mid, after, state, now, r)
            },
    }
}

/// What polling changes at the present, and what it yields.
pub open spec fn polled_now<S>(
    before: Behaviour<S>,
    after: Behaviour<S>,
    input: PollInput,
    r: PollOutput,
) -> bool {
    exists|now: Moment|
        is_present(before.clock, now) && #[trigger] polled(before, after, input, now, r)
}

/// What a decision has to meet: a bootstrap of which a lookup ends or times out, and which goes
/// on with another, can report once more.
pub open spec fn decision_expected<S>(b: Behaviour<S>, input: PollInput) -> bool {
    let entries = b.queries.queries.entries@;
    match input {
        PollInput::Lookup(LookupStep::Finished { id }) => {
            let info = entries[key_index(entries, id)].1.info;
            has_key(entries, id) && lookups_left(info, buckets_to_refresh(b.kbuckets@)) > 0
                ==> info.can_go_on()
        },
        PollInput::Lookup(LookupStep::TimedOut { id }) => {
            let info = entries[key_index(entries, id)].1.info;
            has_key(entries, id) && lookups_left(info, 0) > 0 ==> info.can_go_on()
        },
        _ => true,
    }
}

/// A waiting peer that gets its place is connected only if it is among the connected.
proof fn lemma_connected_applied(t: TableView, connected: Set<PeerId>, i: int)
    requires
        t.wf(),
        t.connected_within(connected),
        0 <= i < t.pending.len(),
    ensures
        t.applied(i).0.connected_within(connected),
{
    let t2 = t.applied(i).0;
    let node = t.pending[i].node;
    let b = t.bucket(node.key());
    t.lemma_applied_wf(i);
    if t.full(b) && (exists|k: int| t.disconnected_at(b, k)) {
        let k0 = choose|k: int| t.disconnected_at(b, k);
        let k1 = t.lemma_stalest(b, k0);
        assert(t.stalest_at(b, k1));
    }
    let k = choose|k: int| t.stalest_at(b, k);
    assert forall|j: int|
        0 <= j < t2.nodes.len() && (#[trigger] t2.nodes[j]).status
            == NodeStatus::Connected implies has_peer(connected, t2.nodes[j].key()) by {
        if j == t2.nodes.len() - 1 && t2.nodes[j] == node {
            assert(t.pending[i].node.status == NodeStatus::Connected);
        } else if t2.nodes.len() == t.nodes.len() && t2.nodes != t.nodes {
            assert(t2.nodes[j] == t.nodes[if j < k {
                j
            } else {
                j + 1
            }]);
        } else {
            assert(t2.nodes[j] == t.nodes[j]);
        }
    }
    assert forall|j: int|
        0 <= j < t2.pending.len() && (#[trigger] t2.pending[j]).node.status
            == NodeStatus::Connected implies has_peer(connected, t2.pending[j].node.key()) by {
        assert(t2.pending[j] == t.pending[if j < i {
            j
        } else {
            j + 1
        }]);
    }
}

/// The same holds where some waiting peers are sent away first. The peer that got its place
/// is not the local one, and has an address.
proof fn lemma_connected_applied_first(
    t: TableView,
    connected: Set<PeerId>,
    from: int,
    now: Moment,
)
    requires
        t.wf(),
        t.connected_within(connected),
    ensures
        t.applied_first(from, now).0.connected_within(connected),
        t.applied_first(from, now).1 matches Some(a) ==> a.inserted.key() != t.local_key()
            && a.inserted.addrs.len() > 0,
        t.applied_first(from, now).0.local == t.local,
    decreases t.pending.len() - from,
{
    if from < 0 || from >= t.pending.len() {
    } else if now.nanos >= t.pending[from].replace.nanos {
        let (next, applied) = t.applied(from);
        lemma_connected_applied(t, connected, from);
        t.lemma_applied_wf(from);
        if applied is Some || next.pending.len() >= t.pending.len() {
        } else {
            lemma_connected_applied_first(next, connected, from, now);
        }
    } else {
        lemma_connected_applied_first(t, connected, from + 1, now);
    }
}

impl<TStore> Behaviour<TStore> {
    /// Announces providers whose turn has come.
    fn announce_each(&mut self, records: Vec<ProviderRecord>)
        requires
            old(self).wf(),
        ensures
            final(self).wf(),
            announced_each(*old(self), *final(self), records@),
    {
        let ghost before = *self;
        let n: usize = records.len();
        let mut i: usize = 0;
        while i < n
            invariant
                n == records@.len(),
                i <= n,
                self.wf(),
                announced_each(before, *self, records@.take(i as int)),
            decreases n - i,
        {
            let ghost mid = *self;
            let id = self.start_add_provider(records[i].key.clone(), AddProviderContext::Republish);
            proof {
                let taken = records@.take(i + 1);
                assert(taken.drop_last() =~= records@.take(i as int));
                assert(taken.last() == records@[i as int]);
                assert(announced_each(before, mid, taken.drop_last()));
                assert(announcement_started(
                    mid,
                    *self,
                    taken.last().key,
                    AddProviderContext::Republish,
                    id,
                ));
                assert(announced_each(before, *self, taken));
            }
            i = i + 1;
        }
        assert(records@.take(n as int) =~= records@);
    }

    /// Stores records whose turn has come.
    fn store_each(&mut self, records: Vec<Record>)
        requires
            old(self).wf(),
        ensures
            final(self).wf(),
            stored_each(*old(self), *final(self), records@),
    {
        let ghost before = *self;
        let n: usize = records.len();
        let mut i: usize = 0;
        while i < n
            invariant
                n == records@.len(),
                i <= n,
                self.wf(),
                self.local_peer_id == before.local_peer_id,
                stored_each(before, *self, records@.take(i as int)),
            decreases n - i,
        {
            let ghost mid = *self;
            let record = records[i].clone();
            let context = if is_peer(&record.publisher, &self.local_peer_id) {
                PutRecordContext::Republish
            } else {
                PutRecordContext::Replicate
            };
            let id = self.start_put_record(record, Quorum::All, context);
            proof {
                let taken = records@.take(i + 1);
                assert(taken.drop_last() =~= records@.take(i as int));
                assert(taken.last() == records@[i as int]);
                assert(stored_each(before, mid, taken.drop_last()));
                assert(put_started(
                    mid,
                    *self,
                    taken.last(),
                    Quorum::All,
                    turn_context(taken.last(), before.local_peer_id),
                    id,
                ));
                assert(stored_each(before, *self, taken));
            }
            i = i + 1;
        }
        assert(records@.take(n as int) =~= records@);
    }

    /// Takes at most `limit` provider records whose turn it is.
    fn take_providers_ready(&mut self, limit: usize) -> (r: Vec<ProviderRecord>)
        requires
            old(self).wf(),
        ensures
            final(self).wf(),
            *final(self) == (Behaviour {
                add_provider_job: final(self).add_provider_job,
                ..*old(self)
            }),
            ({
                let ready = providers_ready(old(self).add_provider_job);
                let n = lesser(limit as nat, ready.len());
                &&& r@ == ready.take(n as int)
                &&& providers_taken(
                    old(self).add_provider_job,
                    final(self).add_provider_job,
                    n as int,
                )
            }),
    {
        let mut r: Vec<ProviderRecord> = Vec::new();
        let ghost ready = providers_ready(self.add_provider_job);
        if let Some(job) = &mut self.add_provider_job {
            let ghost job0 = *job;
            assert(r@ =~= ready.take(0));
            assert(job.ready@ =~= ready.skip(0));
            while r.len() < limit && job.ready.len() > 0
                invariant
                    *job == (AddProviderJob { ready: job.ready, ..job0 }),
                    r@.len() <= limit,
                    r@.len() <= ready.len(),
                    r@ == ready.take(r@.len() as int),
                    job.ready@ == ready.skip(r@.len() as int),
                decreases job.ready@.len(),
            {
                let ghost got = r@;
                let ghost left = job.ready@;
                if let Some(record) = job.ready.pop_front() {
                    r.push(record);
                    proof {
                        assert(record == ready[got.len() as int]) by {
                            assert(left[0] == ready[got.len() as int]);
                        }
                        assert(r@ =~= ready.take(r@.len() as int));
                        assert(job.ready@ =~= ready.skip(r@.len() as int));
                    }
                }
            }
        } else {
            assert(r@ =~= ready.take(0));
        }
        r
    }

    /// Takes at most `limit` records whose turn it is.
    fn take_records_ready(&mut self, limit: usize) -> (r: Vec<Record>)
        requires
            old(self).wf(),
        ensures
            final(self).wf(),
            *final(self) == (Behaviour {
                put_record_job: final(self).put_record_job,
                ..*old(self)
            }),
            ({
                let ready = records_ready(old(self).put_record_job);
                let n = lesser(limit as nat, ready.len());
                &&& r@ == ready.take(n as int)
                &&& records_taken(
                    old(self).put_record_job,
                    final(self).put_record_job,
                    n as int,
                )
            }),
    {
        let mut r: Vec<Record> = Vec::new();
        let ghost ready = records_ready(self.put_record_job);
        if let Some(job) = &mut self.put_record_job {
            let ghost job0 = *job;
            assert(r@ =~= ready.take(0));
            assert(job.ready@ =~= ready.skip(0));
            while r.len() < limit && job.ready.len() > 0
                invariant
                    *job == (PutRecordJob { ready: job.ready, ..job0 }),
                    r@.len() <= limit,
                    r@.len() <= ready.len(),
                    r@ == ready.take(r@.len() as int),
                    job.ready@ == ready.skip(r@.len() as int),
                decreases job.ready@.len(),
            {
                let ghost got = r@;
                let ghost left = job.ready@;
                if let Some(record) = job.ready.pop_front() {
                    r.push(record);
                    proof {
                        assert(record == ready[got.len() as int]) by {
                            assert(left[0] == ready[got.len() as int]);
                        }
                        assert(r@ =~= ready.take(r@.len() as int));
                        assert(job.ready@ =~= ready.skip(r@.len() as int));
                    }
                }
            }
        } else {
            assert(r@ =~= ready.take(0));
        }
        r
    }

    /// Runs the jobs.
    fn run_jobs(&mut self)
        requires
            old(self).wf(),
        ensures
            final(self).wf(),
            jobs_run(*old(self), *final(self)),
    {
        let ghost before = *self;
        let size: usize = self.queries.size();
        let mut room: usize = if size >= JOBS_MAX_QUERIES {
            0
        } else {
            JOBS_MAX_QUERIES - size
        };
        let num: usize = if JOBS_MAX_NEW_QUERIES <= room {
            JOBS_MAX_NEW_QUERIES
        } else {
            room
        };
        let present = self.add_provider_job.is_some();
        let providers = self.take_providers_ready(num);
        let ghost first = *self;
        let taken: usize = providers.len();
        let ghost ready = providers_ready(before.add_provider_job);
        proof {
            assert(ready.take(lesser(num as nat, ready.len()) as int).len() == lesser(
                num as nat,
                ready.len(),
            ));
        }
        self.announce_each(providers);
        let ghost second = *self;
        proof {
            lemma_announced_frame(
                first,
                second,
                ready.take(lesser(num as nat, ready.len()) as int),
            );
        }
        if present && taken < num {
            room = room - taken;
        }
        let num2: usize = if JOBS_MAX_NEW_QUERIES <= room {
            JOBS_MAX_NEW_QUERIES
        } else {
            room
        };
        let records = self.take_records_ready(num2);
        let ghost third = *self;
        let ghost stored = records@;
        self.store_each(records);
        proof {
            assert(announced_each(
                first,
                second,
                ready.take(lesser(allowed(capacity(before.queries)), ready.len()) as int),
            ));
            let room2 = room_after(
                capacity(before.queries),
                ready.len(),
                before.add_provider_job is Some,
            );
            let waiting = records_ready(before.put_record_job);
            assert(room as nat == room2);
            assert(second.put_record_job
                == before.put_record_job);
            assert(stored == waiting.take(lesser(allowed(room2), waiting.len()) as int));
            assert(stored_each(
                third,
                *self,
                waiting.take(lesser(allowed(room2), waiting.len()) as int),
            ));
        }
    }

    /// Runs the jobs, and starts a bootstrap if it is due.
    fn run_background(&mut self)
        requires
            old(self).wf(),
        ensures
            final(self).wf(),
            background_run(*old(self), *final(self)),
    {
        self.run_jobs();
        let ghost mid = *self;
        assert(jobs_run(*old(self), mid));
        if self.bootstrap_status.poll_next_bootstrap() {
            let r = self.bootstrap();
        }
    }

    /// Yields the next thing to be done.
    fn drain(&mut self, now: Moment) -> (r: PollOutput)
        requires
            old(self).wf(),
        ensures
            final(self).wf(),
            drained(*old(self), *final(self), now, r),
    {
        let ghost before = *self;
        if self.queued_events.len() > 0 {
            if let Some(event) = self.queued_events.pop_front() {
                assert(self.queued_events@ =~= before.queued_events@.drop_first());
                return PollOutput::Ready(event);
            }
        }
        proof {
            lemma_connected_applied_first(self.kbuckets@, self.connected_peers@, 0, now);
        }
        match self.kbuckets.take_applied_pending(now) {
            Some(entry) => {
                let key = KeyBytes::from_peer(&entry.peer);
                let bucket_range = self.kbuckets.range_of(&key);
                self.queued_events.push_back(
                    ToSwarm::NewExternalAddrOfPeer {
                        peer_id: entry.peer,
                        address: entry.addresses.first().clone(),
                    },
                );
                proof {
                    let a = before.kbuckets@.applied_first(0, now).1->0;
                    assert(self.queued_events@ =~= seq![
                        Request::NewExternalAddrOfPeer {
                            peer_id: a.inserted.peer,
                            address: a.inserted.addrs[0],
                        },
                    ]);
                }
                PollOutput::Ready(
                    ToSwarm::GenerateEvent(
                        Event::RoutingUpdated {
                            peer: entry.peer,
                            is_new_peer: true,
                            addresses: entry.addresses,
                            old_peer: entry.evicted,
                            bucket_range,
                        },
                    ),
                )
            },
            None => PollOutput::AskLookups,
        }
    }

    /// Contacts a candidate of a query.
    fn contact(&mut self, id: QueryId, peer_id: PeerId)
        requires
            old(self).wf(),
            contact_is_new(old(self).queries, id, peer_id),
        ensures
            final(self).wf(),
            contact_made(*old(self), *final(self), id, peer_id),
    {
        let ghost entries = self.queries.queries.entries@;
        if let Some(i) = self.queries.queries.position(&id) {
            let ghost q0 = entries[i as int].1;
            assert(q0.wf());
            let connected = contains_peer(&self.connected_peers, &peer_id);
            let local = peer_id.same(&self.local_peer_id);
            let event = self.queries.queries.entries[i].1.info.to_request(id);
            let ghost sent = event;
            assert(is_request(q0.info, id, sent));
            proof {
                lemma_state_insert(
                    q0.peers.candidates.entries@,
                    peer_id,
                    PeerState::Succeeded,
                    peer_id,
                );
            }
            let announcing = match &self.queries.queries.entries[i].1.info {
                QueryInfo::AddProvider { phase: AddProviderPhase::AddProvider { .. }, .. } => true,
                _ => false,
            };
            if announcing {
                let none: Vec<PeerId> = Vec::new();
                assert(none@ =~= Seq::empty());
                self.queries.queries.entries[i].1.on_success(&peer_id, &none);
            }
            if connected {
                self.queued_events.push_back(
                    ToSwarm::NotifyHandler { peer_id, handler: NotifyHandler::Any, event },
                );
            } else if !local {
                self.queries.queries.entries[i].1.pending_rpcs.push((peer_id, event));
                let opts = dial_peer(peer_id);
                self.queued_events.push_back(ToSwarm::Dial { opts });
            }
            proof {
                let q2 = self.queries.queries.entries@[i as int].1;
                lemma_pool_put(entries, id, q2);
                assert(self.queries.queries.entries@ =~= entries_insert(entries, id, q2));
                let waits = !connected && !local;
                assert(contact_noted(peer_id, sent, waits)(q0, q2));
            }
        }
    }

    /// Drives the behaviour.
    pub fn poll(&mut self, input: PollInput) -> (r: PollOutput)
        requires
            old(self).wf(),
            decision_expected(*old(self), input),
        ensures
            final(self).wf(),
            polled_now(*old(self), *final(self), input, r),
    {
        let now = self.now();
        self.poll_at(input, now)
    }

    /// As [`Behaviour::poll`], at a given point in time.
    pub fn poll_at(&mut self, input: PollInput, now: Moment) -> (r: PollOutput)
        requires
            old(self).wf(),
            now.nanos <= MAX_ELAPSED,
            decision_expected(*old(self), input),
        ensures
            final(self).wf(),
            polled(*old(self), *final(self), input, now, r),
    {
        match input {
            PollInput::Begin => {
                self.run_background();
                let ghost mid = *self;
                assert(background_run(*old(self), mid));
                self.drain(now)
            },
            PollInput::Lookup(step) => {
                let state = self.queries.poll(step, now);
                let ghost mid = *self;
                let ghost found = state;
                let r = self.handle_decision(state, now);
                assert(decision_handled(mid, *self, found, now, r));
                r
            },
        }
    }

    /// Handles what the pool made of a decision.
    fn handle_decision(&mut self, state: PoolState, now: Moment) -> (r: PollOutput)
        requires
            old(self).wf(),
            match state {
                PoolState::Finished(q) => q.wf() && (lookups_left(
                    q.info,
                    buckets_to_refresh(old(self).kbuckets@),
                ) > 0 ==> q.info.can_go_on()),
                PoolState::Timeout(q) => q.wf() && (lookups_left(q.info, 0) > 0
                    ==> q.info.can_go_on()),
                PoolState::Contact(id, peer) => contact_is_new(old(self).queries, id, peer),
                PoolState::Idle => true,
            },
        ensures
            final(self).wf(),
            decision_handled(*old(self), *final(self), state, now, r),
    {
        match state {
            PoolState::Finished(q) => {
                match self.query_finished(q) {
                    Some(event) => PollOutput::Ready(ToSwarm::GenerateEvent(event)),
                    None => PollOutput::AskLookups,
                }
            },
            PoolState::Timeout(q) => {
                match self.query_timeout(q) {
                    Some(event) => PollOutput::Ready(ToSwarm::GenerateEvent(event)),
                    None => PollOutput::AskLookups,
                }
            },
            PoolState::Contact(id, peer_id) => {
                self.contact(id, peer_id);
                PollOutput::AskLookups
            },
            PoolState::Idle => {
                if self.queued_events.len() == 0 {
                    self.no_events_waker = true;
                    PollOutput::Pending
                } else {
                    self.drain(now)
                }
            },
        }
    }
}

/// The announcement of providers changes nothing but the queries.
proof fn lemma_announced_frame<S>(
    before: Behaviour<S>,
    after: Behaviour<S>,
    records: Seq<ProviderRecord>,
)
    requires
        announced_each(before, after, records),
    ensures
        after == (Behaviour { queries: after.queries, ..before }),
    decreases records.len(),
{
    if records.len() > 0 {
        let (mid, id) = choose|mid: Behaviour<S>, id: QueryId|
            announced_each(before, mid, records.drop_last()) && #[trigger] announcement_started(
                mid,
                after,
                records.last().key,
                AddProviderContext::Republish,
                id,
            );
        lemma_announced_frame(before, mid, records.drop_last());
    }
}

} // verus!
