//! What can be done to a behaviour, as one relation.

use libp2p_core::Multiaddr;
use libp2p_identity::PeerId;
use libp2p_swarm::ConnectionId;
use vstd::prelude::*;

use crate::assoc::entries_insert;
use crate::assoc::entries_remove;
use crate::kad::behaviour::Behaviour;
use crate::kad::connections::handler_made;
use crate::kad::connections::news_handled;
use crate::kad::connections::NewHandler;
use crate::kad::events::AddProviderContext;
use crate::kad::events::NoKnownPeers;
use crate::kad::events::PutRecordContext;
use crate::kad::events::Quorum;
use crate::kad::events::RoutingUpdate;
use crate::kad::handles::runs;
use crate::kad::inbound::event_handled;
use crate::kad::kbucket::EntryView;
use crate::kad::lookups::announcement_started;
use crate::kad::lookups::bootstrap_started;
use crate::kad::lookups::closest_sought;
use crate::kad::lookups::providers_sought;
use crate::kad::lookups::providing_started;
use crate::kad::lookups::put_started;
use crate::kad::lookups::put_to_started;
use crate::kad::lookups::query_in;
use crate::kad::lookups::record_published;
use crate::kad::lookups::record_removed;
use crate::kad::lookups::record_sought;
use crate::kad::mode::mode_set;
use crate::kad::poll::polled;
use crate::kad::poll::PollInput;
use crate::kad::poll::PollOutput;
use crate::kad::protocol::HandlerEvent;
use crate::kad::protocol::Mode;
use crate::kad::protocol::QueryId;
use crate::kad::query::Query;
use crate::kad::query::QueryPeers;
use crate::kad::query::QueryPool;
use crate::kad::record::Key;
use crate::kad::record::ProviderRecord;
use crate::kad::record::Record;
use crate::kad::record::RecordStore;
use crate::kad::record::StoreError;
use crate::kad::routing::address_added;
use crate::kad::routing::address_removed;
use crate::kad::routing::peer_removed;
use crate::nonzero::NonZeroUsize;
use crate::swarm::ConnectedPoint;
use crate::swarm::FromSwarm;
use crate::time::Moment;

verus! {

/// Something that is done to a behaviour: what it was given, what the clock and the store said,
/// and what it returned.
pub enum Operation {
    /// [`Behaviour::add_address`].
    AddAddress {
        /// The peer.
        peer: PeerId,
        /// The address.
        address: Multiaddr,
        /// The present.
        now: Moment,
        /// What was returned.
        result: RoutingUpdate,
    },
    /// [`Behaviour::remove_address`].
    RemoveAddress {
        /// The peer.
        peer: PeerId,
        /// The address.
        address: Multiaddr,
        /// What was returned.
        result: Option<EntryView>,
    },
    /// [`Behaviour::remove_peer`].
    RemovePeer {
        /// The peer.
        peer: PeerId,
        /// What was returned.
        result: Option<EntryView>,
    },
    /// [`Behaviour::set_mode`].
    SetMode {
        /// The mode, if it is not to follow the external addresses.
        mode: Option<Mode>,
    },
    /// [`Behaviour::store_mut`] and [`Behaviour::stop_providing`]: the store is changed.
    ChangeStore,
    /// [`Behaviour::remove_record`].
    RemoveRecord {
        /// The key.
        key: Key,
        /// What the store returned.
        got: Option<Record>,
    },
    /// [`Behaviour::get_closest_peers`] and [`Behaviour::get_n_closest_peers`].
    GetClosestPeers {
        /// The key.
        key: Vec<u8>,
        /// The number of peers, if it was given.
        number: Option<NonZeroUsize>,
        /// The query.
        id: QueryId,
    },
    /// [`Behaviour::get_record`].
    GetRecord {
        /// The key.
        key: Key,
        /// What the store returned.
        got: Option<Record>,
        /// The present.
        now: Moment,
        /// The query.
        id: QueryId,
    },
    /// [`Behaviour::put_record`].
    PutRecord {
        /// The record.
        record: Record,
        /// The quorum.
        quorum: Quorum,
        /// The present.
        now: Moment,
        /// What was returned.
        result: Result<QueryId, StoreError>,
    },
    /// [`Behaviour::put_record_to`].
    PutRecordTo {
        /// The record.
        record: Record,
        /// The peers.
        peers: Vec<PeerId>,
        /// The quorum.
        quorum: Quorum,
        /// The present.
        now: Moment,
        /// The query.
        id: QueryId,
    },
    /// [`Behaviour::start_put_record`].
    StartPutRecord {
        /// The record.
        record: Record,
        /// The quorum.
        quorum: Quorum,
        /// What it is done for.
        context: PutRecordContext,
        /// The query.
        id: QueryId,
    },
    /// [`Behaviour::bootstrap`].
    Bootstrap {
        /// What was returned.
        result: Result<QueryId, NoKnownPeers>,
    },
    /// [`Behaviour::start_providing`].
    StartProviding {
        /// The key.
        key: Key,
        /// What was returned.
        result: Result<QueryId, StoreError>,
    },
    /// [`Behaviour::start_add_provider`].
    StartAddProvider {
        /// The key.
        key: Key,
        /// What it is done for.
        context: AddProviderContext,
        /// The query.
        id: QueryId,
    },
    /// [`Behaviour::get_providers`].
    GetProviders {
        /// The key.
        key: Key,
        /// What the store returned.
        records: Vec<ProviderRecord>,
        /// The present.
        now: Moment,
        /// The query.
        id: QueryId,
    },
    /// [`QueryMut::finish`](crate::kad::handles::QueryMut::finish) of the query that
    /// [`Behaviour::query_mut`] returns.
    FinishQuery {
        /// The query.
        id: QueryId,
    },
    /// [`Behaviour::cancel_query`].
    CancelQuery {
        /// The query.
        id: QueryId,
    },
    /// [`Behaviour::handle_established_inbound_connection`] and
    /// [`Behaviour::handle_established_outbound_connection`].
    Connect {
        /// The connection.
        connection: ConnectionId,
        /// The peer.
        peer: PeerId,
        /// The endpoint.
        endpoint: ConnectedPoint,
        /// What was returned.
        handler: NewHandler,
    },
    /// [`Behaviour::on_connection_handler_event`].
    Report {
        /// The peer.
        source: PeerId,
        /// The connection.
        connection: ConnectionId,
        /// What the handler reports.
        event: HandlerEvent,
        /// The present.
        now: Moment,
    },
    /// [`Behaviour::on_swarm_event`].
    News {
        /// What the swarm tells.
        event: FromSwarm,
    },
    /// [`Behaviour::poll`].
    Poll {
        /// What polling is given.
        input: PollInput,
        /// The present.
        now: Moment,
        /// What polling yields.
        output: PollOutput,
    },
}

/// What the end of a query as soon as possible changes.
pub open spec fn finish_asked(before: QueryPool, after: QueryPool, id: QueryId) -> bool {
    let q = query_in(before, id);
    if runs(before, id) {
        &&& after == (QueryPool { queries: after.queries, ..before })
        &&& after.queries.entries@ == entries_insert(
            before.queries.entries@,
            id,
            Query { peers: QueryPeers { finished: true, ..q.peers }, ..q },
        )
    } else {
        after == before
    }
}

/// Whether doing something to `before` gives `after`.
pub open spec fn performed<S: RecordStore>(
    before: Behaviour<S>,
    after: Behaviour<S>,
    op: Operation,
) -> bool {
    match op {
        Operation::AddAddress { peer, address, now, result } => address_added(
            before,
            after,
            peer,
            address,
            now,
            result,
        ),
        Operation::RemoveAddress { peer, address, result } => address_removed(
            before,
            after,
            peer,
            address,
            result,
        ),
        Operation::RemovePeer { peer, result } => peer_removed(before, after, peer, result),
        Operation::SetMode { mode } => mode_set(before, after, mode),
        Operation::ChangeStore => after == (Behaviour { store: after.store, ..before }),
        Operation::RemoveRecord { key, got } => record_removed(before, after, key, got),
        Operation::GetClosestPeers { key, number, id } => closest_sought(
            before,
            after,
            key,
            number,
            id,
        ),
        Operation::GetRecord { key, got, now, id } => record_sought(
            before,
            after,
            key,
            got,
            now,
            id,
        ),
        Operation::PutRecord { record, quorum, now, result } => record_published(
            before,
            after,
            record,
            quorum,
            now,
            result,
        ),
        Operation::PutRecordTo { record, peers, quorum, now, id } => put_to_started(
            before,
            after,
            record,
            peers@,
            quorum,
            now,
            id,
        ),
        Operation::StartPutRecord { record, quorum, context, id } => put_started(
            before,
            after,
            record,
            quorum,
            context,
            id,
        ),
        Operation::Bootstrap { result } => bootstrap_started(before, after, result),
        Operation::StartProviding { key, result } => providing_started(before, after, key, result),
        Operation::StartAddProvider { key, context, id } => announcement_started(
            before,
            after,
            key,
            context,
            id,
        ),
        Operation::GetProviders { key, records, now, id } => providers_sought(
            before,
            after,
            key,
            records@,
            now,
            id,
        ),
        Operation::FinishQuery { id } => {
            &&& after == (Behaviour { queries: after.queries, ..before })
            &&& finish_asked(before.queries, after.queries, id)
        },
        Operation::CancelQuery { id } => {
            &&& after == (Behaviour { queries: after.queries, ..before })
            &&& after.queries == (QueryPool { queries: after.queries.queries, ..before.queries })
            &&& after.queries.queries.entries@ == entries_remove(
                before.queries.queries.entries@,
                id,
            )
        },
        Operation::Connect { connection, peer, endpoint, handler } => handler_made(
            before,
            after,
            connection,
            peer,
            endpoint,
            handler,
        ),
        Operation::Report { source, connection, event, now } => event_handled(
            before,
            after,
            source,
            connection,
            event,
            now,
        ),
        Operation::News { event } => news_handled(before, after, event),
        Operation::Poll { input, now, output } => polled(before, after, input, now, output),
    }
}

} // verus!
