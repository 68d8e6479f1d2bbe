//! Laws on the records and provider records of the local store: how they are found, told to
//! others, published and received.

use libp2p_core::Multiaddr;
use libp2p_identity::PeerId;
use libp2p_swarm::ConnectionId;
use vstd::prelude::*;

use crate::assoc::entries_map;
use crate::assoc::has_key;
use crate::assoc::key_index;
use crate::assoc::keys_distinct;
use crate::assoc::lemma_entries_insert;
use crate::assoc::lemma_filtered;
use crate::assoc::lemma_insert_get;
use crate::kad::answers::lists_set;
use crate::kad::answers::own_addresses;
use crate::kad::answers::provider_answer;
use crate::kad::answers::provider_answers;
use crate::kad::answers::providers_told;
use crate::kad::behaviour::queued_two;
use crate::kad::behaviour::Behaviour;
use crate::kad::behaviour::Request;
use crate::kad::contact_laws::knows;
use crate::kad::events::Event;
use crate::kad::events::GetProvidersOk;
use crate::kad::events::GetRecordOk;
use crate::kad::events::InboundRequest;
use crate::kad::events::QueryInfo;
use crate::kad::events::QueryResult;
use crate::kad::inbound::event_handled;
use crate::kad::inbound::event_handled_now;
use crate::kad::inbound::providers_asked;
use crate::kad::inbound::record_asked;
use crate::kad::kbucket::peers_of;
use crate::kad::kbucket::NodeStatus;
use crate::kad::kbucket::Place;
use crate::kad::kbucket::TableView;
use crate::kad::key::key_of_bytes;
use crate::kad::key::key_of_peer;
use crate::kad::key::lemma_distance_order;
use crate::kad::key::KeyBytes;
use crate::kad::laws::law_closest_answer;
use crate::kad::lookups::closest_answer;
use crate::kad::lookups::keys_of;
use crate::kad::lookups::live_providers;
use crate::kad::lookups::not_peer;
use crate::kad::lookups::providers_sought;
use crate::kad::lookups::providers_sought_now;
use crate::kad::lookups::query_in;
use crate::kad::lookups::record_sought;
use crate::kad::lookups::record_sought_now;
use crate::kad::order::law_by_distance_sorts;
use crate::kad::order::peer_distance;
use crate::kad::protocol::kad_peers;
use crate::kad::protocol::ConnectionType;
use crate::kad::protocol::HandlerEvent;
use crate::kad::protocol::HandlerIn;
use crate::kad::protocol::KadPeer;
use crate::kad::protocol::KadPeerView;
use crate::kad::protocol::QueryId;
use crate::kad::protocol::RequestId;
use crate::kad::query::addr_views;
use crate::kad::query::lemma_addr_views_key;
use crate::kad::record::Key;
use crate::kad::record::ProviderRecord;
use crate::kad::record::Record;
use crate::kad::record::RecordStore;
use crate::kad::search_laws::far;
use crate::kad::search_laws::lemma_others_stay;
use crate::kad::search_laws::names;
use crate::net::external_addrs;
use crate::net::is_present;
use crate::net::listen_addrs;
use crate::net::nanos_between;
use crate::net::was_read;
use crate::swarm::NotifyHandler;
use crate::swarm::ToSwarm;
use crate::time::MAX_ELAPSED;
use crate::time::Moment;

verus! {

/// Whether a point in time is what the clock shows, counted from the given reading of it.
pub open spec fn shown_by(clock: web_time::Instant, now: Moment) -> bool {
    &&& now.nanos <= MAX_ELAPSED
    &&& exists|reading: web_time::Instant|
        was_read(reading) && now.nanos == #[trigger] nanos_between(clock, reading)
}

/// Whether something has not expired yet.
pub open spec fn is_live(expires: Option<Moment>, now: Moment) -> bool {
    expires is None || now.nanos < expires->0.nanos
}

////////////////////////////////////////////////////////////////////////////////
// What is looked for

/// Whether a request reports, as the first of several reports of a query, that a record was found
/// in the local store.
pub open spec fn finds_locally(request: Request, id: QueryId, record: Record) -> bool {
    request matches ToSwarm::GenerateEvent(
        Event::OutboundQueryProgressed {
            id: query,
            result: QueryResult::GetRecord(Ok(GetRecordOk::FoundRecord(found))),
            step,
            ..
        },
    ) && query == id && found.peer is None && found.record == record && step.count@ == 1
        && !step.last
}

/// The search for a record looks into the local store first. A record there that has not expired,
/// when the clock is read at the call, is reported as found and stays where it is. One that has
/// expired is removed and not reported.
pub proof fn law_live_local_record_is_found<S: RecordStore>(
    before: Behaviour<S>,
    after: Behaviour<S>,
    key: Key,
    id: QueryId,
) -> (seen: (Option<Record>, Moment))
    requires
        record_sought_now(before, after, key, id),
    ensures
        before.store.may_get(key, seen.0),
        shown_by(before.clock, seen.1),
        ({
            let (got, now) = seen;
            let old_events = before.queued_events@;
            let events = after.queued_events@;
            &&& got is Some && is_live(got->0.expires, now) ==> {
                &&& after.store == before.store
                &&& events.len() == old_events.len() + 1
                &&& old_events.is_prefix_of(events)
                &&& finds_locally(events.last(), id, got->0)
            }
            &&& got is Some && !is_live(got->0.expires, now) ==> {
                &&& before.store.may_remove(key, after.store)
                &&& events == old_events
            }
            &&& got is None ==> after.store == before.store && events == old_events
        }),
{
    let (got, now) = choose|got: Option<Record>, now: Moment|
        before.store.may_get(key, got) && is_present(before.clock, now)
            && #[trigger] record_sought(before, after, key, got, now, id);
    let events = after.queued_events@;
    let n = before.queued_events@.len() as int;
    if events.len() == n + 1 {
        assert(events.subrange(0, n) =~= before.queued_events@);
    }
    (got, now)
}

/// The provider of a list of records that is still one: the last record of it that has not
/// expired stands for it.
pub open spec fn still_provides(
    records: Seq<ProviderRecord>,
    now: Moment,
    p: PeerId,
    addrs: Seq<Multiaddr>,
) -> bool {
    exists|i: int| #[trigger]
        last_live(records, now, p, i) && records[i].addresses@ == addrs
}

/// Whether the record at `i` is the last one of a provider that has not expired.
pub open spec fn last_live(records: Seq<ProviderRecord>, now: Moment, p: PeerId, i: int) -> bool {
    &&& 0 <= i < records.len()
    &&& records[i].provider == p
    &&& is_live(records[i].expires, now)
    &&& forall|j: int|
        i < j < records.len() && (#[trigger] records[j]).provider == p ==> !is_live(
            records[j].expires,
            now,
        )
}

/// The live providers of a list of records are listed, each with the addresses of the record that
/// stands for it.
proof fn lemma_live(records: Seq<ProviderRecord>, now: Moment, p: PeerId)
    ensures
        keys_distinct(live_providers(records, now)),
        has_key(live_providers(records, now), p) ==> still_provides(
            records,
            now,
            p,
            live_providers(records, now)[key_index(live_providers(records, now), p)].1,
        ),
        forall|i: int| #[trigger]
            last_live(records, now, p, i) ==> has_key(live_providers(records, now), p),
    decreases records.len(),
{
    let all = live_providers(records, now);
    if records.len() > 0 {
        let n = records.len() - 1;
        let front = records.drop_last();
        let some = live_providers(front, now);
        let last = records.last();
        lemma_live(front, now, p);
        if is_live(last.expires, now) {
            lemma_entries_insert(some, last.provider, last.addresses@);
            lemma_insert_get(some, last.provider, last.addresses@, p);
            if last.provider == p {
                assert(last_live(records, now, p, n));
            }
        }
        if last.provider != p || !is_live(last.expires, now) {
            assert forall|i: int| #[trigger] last_live(records, now, p, i) implies last_live(
                front,
                now,
                p,
                i,
            ) by {
                assert(i != n);
                assert forall|j: int|
                    i < j < front.len() && (#[trigger] front[j]).provider == p implies !is_live(
                    front[j].expires,
                    now,
                ) by {
                    assert(records[j] == front[j]);
                }
            }
            if has_key(some, p) {
                let addrs = some[key_index(some, p)].1;
                let i = choose|i: int| #[trigger]
                    last_live(front, now, p, i) && front[i].addresses@ == addrs;
                assert(records[i] == front[i]);
                assert forall|j: int|
                    i < j < records.len() && (#[trigger] records[j]).provider == p implies !is_live(
                    records[j].expires,
                    now,
                ) by {
                    if j < n {
                        assert(front[j] == records[j]);
                    }
                }
                assert(last_live(records, now, p, i));
            }
        }
    }
}

/// A provider that has a live record has a last one.
proof fn lemma_last_live(records: Seq<ProviderRecord>, now: Moment, p: PeerId, k: int) -> (i: int)
    requires
        0 <= k < records.len(),
        records[k].provider == p,
        is_live(records[k].expires, now),
    ensures
        last_live(records, now, p, i),
    decreases records.len() - k,
{
    if exists|j: int|
        k < j < records.len() && (#[trigger] records[j]).provider == p && is_live(
            records[j].expires,
            now,
        ) {
        let j = choose|j: int|
            k < j < records.len() && (#[trigger] records[j]).provider == p && is_live(
                records[j].expires,
                now,
            );
        lemma_last_live(records, now, p, j)
    } else {
        k
    }
}

/// The search for providers looks into the local store first. Every provider with a record there
/// that has not expired, when the clock is read at the call, is reported with the addresses of its
/// last such record, and no other is. The query remembers whom it has reported.
pub proof fn law_live_local_providers_are_found<S: RecordStore>(
    before: Behaviour<S>,
    after: Behaviour<S>,
    key: Key,
    id: QueryId,
    p: PeerId,
    k: int,
) -> (seen: (Seq<ProviderRecord>, Moment))
    requires
        before.wf(),
        providers_sought_now(before, after, key, id),
    ensures
        before.store.may_list_providers(key, seen.0),
        shown_by(before.clock, seen.1),
        ({
            let (records, now) = seen;
            let old_events = before.queued_events@;
            let events = after.queued_events@;
            &&& 0 <= k < records.len() && is_live(records[k].expires, now) ==> {
                &&& events.len() == old_events.len() + 1
                &&& old_events.is_prefix_of(events)
            }
            &&& events.len() != old_events.len() + 1 ==> events == old_events
            &&& events.len() == old_events.len() + 1 ==> (
            events.last() matches ToSwarm::GenerateEvent(
                Event::OutboundQueryProgressed {
                    id: query,
                    result: QueryResult::GetProviders(
                        Ok(GetProvidersOk::FoundProviders { key: found_key, providers }),
                    ),
                    step,
                    ..
                },
            ) && {
                &&& query == id && found_key == key && step.count@ == 1 && !step.last
                &&& providers@.contains_key(p) ==> still_provides(
                    records,
                    now,
                    p,
                    providers@[p]@,
                )
                &&& 0 <= k < records.len() && is_live(records[k].expires, now)
                    ==> providers@.contains_key(records[k].provider)
                &&& after.queries@.contains_key(id)
                &&& after.queries@[id].info matches QueryInfo::GetProviders {
                    reported,
                    providers_found,
                    ..
                } && (reported@.contains(p) <==> providers@.contains_key(p)) && providers_found
                    == providers.entries@.len()
            })
        }),
        after.store == before.store,
{
    let (records, now) = choose|records: Seq<ProviderRecord>, now: Moment|
        before.store.may_list_providers(key, records) && is_present(before.clock, now)
            && #[trigger] providers_sought(before, after, key, records, now, id);
    let events = after.queued_events@;
    let n = before.queued_events@.len() as int;
    let found = live_providers(records, now);
    lemma_live(records, now, p);
    lemma_others_stay(before.queries, after.queries, id, query_in(after.queries, id), id);
    if 0 <= k < records.len() && is_live(records[k].expires, now) {
        let other = records[k].provider;
        lemma_live(records, now, other);
        let i = lemma_last_live(records, now, other, k);
        assert(has_key(found, other));
    }
    if found.len() > 0 {
        assert(events.subrange(0, n) =~= before.queued_events@);
        let providers = match events.last() {
            ToSwarm::GenerateEvent(
                Event::OutboundQueryProgressed {
                    result: QueryResult::GetProviders(
                        Ok(GetProvidersOk::FoundProviders { providers, .. }),
                    ),
                    ..
                },
            ) => providers,
            _ => arbitrary(),
        };
        lemma_found_keys(providers.entries@, found, p);
        if 0 <= k < records.len() {
            lemma_found_keys(providers.entries@, found, records[k].provider);
        }
        let known = keys_of(found);
        if has_key(found, p) {
            assert(known[key_index(found, p)] == p);
        }
        if known.contains(p) {
            let i = known.index_of(p);
            assert(found[i].0 == p);
        }
        assert(providers.entries@.len() == addr_views(providers.entries@).len());
    }
    (records, now)
}

/// The keys of entries are those of what the entries are.
pub proof fn lemma_found_keys(
    entries: Seq<(PeerId, Vec<Multiaddr>)>,
    found: Seq<(PeerId, Seq<Multiaddr>)>,
    p: PeerId,
)
    requires
        addr_views(entries) == found,
        keys_distinct(found),
    ensures
        entries_map(entries).contains_key(p) <==> has_key(found, p),
        has_key(found, p) ==> entries_map(entries)[p]@ == found[key_index(found, p)].1,
{
    assert forall|i: int, j: int| 0 <= i < j < entries.len() implies (#[trigger] entries[i]).0 != (
    #[trigger] entries[j]).0 by {
        assert(found[i].0 == entries[i].0 && found[j].0 == entries[j].0);
    }
    lemma_addr_views_key(entries, p);
    assert(entries_map(entries).contains_key(p) == has_key(entries, p));
}

////////////////////////////////////////////////////////////////////////////////
// What others are told

/// Whether a list holds the peers of the routing table that are closest to a key, other than the
/// one who asks: each as the table knows it, from the closest to the farthest, and as many as
/// there are up to a number. `p` stands for any peer of the table.
pub open spec fn are_closest(
    t: TableView,
    target: KeyBytes,
    source: PeerId,
    most: int,
    list: Seq<KadPeerView>,
    i: int,
    j: int,
    k: int,
) -> bool {
    &&& list.len() <= most
    &&& 0 <= i < list.len() ==> list[i].peer != source && known_as(t, list[i])
    &&& 0 <= i <= j < list.len() ==> far(list[i].peer, target) <= far(list[j].peer, target)
    &&& 0 <= k < t.nodes.len() && t.nodes[k].peer != source && !names(list, t.nodes[k].peer) ==> {
        &&& list.len() == most
        &&& 0 <= i < list.len() ==> far(list[i].peer, target) <= far(t.nodes[k].peer, target)
    }
}

/// Whether a peer is described as the routing table knows it.
pub open spec fn known_as(t: TableView, peer: KadPeerView) -> bool {
    exists|k: int|
        0 <= k < t.nodes.len() && (#[trigger] t.nodes[k]).peer == peer.peer && t.nodes[k].addrs
            == peer.addrs && (t.nodes[k].status == NodeStatus::Connected <==> peer.connection
            == ConnectionType::Connected) && (t.nodes[k].status == NodeStatus::Disconnected
            <==> peer.connection == ConnectionType::NotConnected)
}

/// What a peer is told when it asks for the closest peers are those that the routing table knows.
pub proof fn law_answer_holds_closest_peers(
    t: TableView,
    target: KeyBytes,
    source: PeerId,
    most: nat,
    i: int,
    j: int,
    k: int,
)
    requires
        t.wf(),
    ensures
        are_closest(
            t,
            target,
            source,
            most as int,
            closest_answer(t, target, source, most),
            i,
            j,
            k,
        ),
{
    let list = closest_answer(t, target, source, most);
    let left_out = if 0 <= k < t.nodes.len() {
        t.nodes[k].peer
    } else {
        source
    };
    law_closest_answer(t, target, source, most, left_out);
    let peers = Seq::new(list.len(), |x: int| list[x].peer);
    let all = peers_of(t.nodes);
    if 0 <= i < list.len() {
        assert(peers[i] == list[i].peer);
        if list[i].peer == source {
            assert(peers.contains(source));
        }
        let order = t.closest_peers(target);
        let f = not_peer(source);
        law_by_distance_sorts(all, target);
        assert(peers[i] == order.filter(f)[i]);
        lemma_filtered(order, f, peers[i]);
        assert(order.filter(f).contains(peers[i]));
        assert(order.contains(peers[i]));
        assert(all.contains(peers[i]));
        let x = all.index_of(peers[i]);
        assert(t.nodes[x].peer == peers[i]);
        t.lemma_present(x);
        assert(known_as(t, list[i]));
    }
    if 0 <= i <= j < list.len() {
        assert(peers[i] == list[i].peer && peers[j] == list[j].peer);
        lemma_distance_order(peer_distance(peers[i], target), peer_distance(peers[j], target));
    }
    if 0 <= k < t.nodes.len() && left_out != source && !names(list, left_out) {
        assert(all[k] == left_out);
        if peers.contains(left_out) {
            let x = peers.index_of(left_out);
            assert(list[x].peer == left_out);
        }
        if 0 <= i < list.len() {
            lemma_distance_order(
                peer_distance(peers[i], target),
                peer_distance(left_out, target),
            );
        }
    }
}

/// Whether something is told to the handler of one connection.
pub open spec fn goes_to(
    request: Request,
    peer: PeerId,
    connection: ConnectionId,
    event: HandlerIn,
) -> bool {
    request matches ToSwarm::NotifyHandler { peer_id, handler, event: e } && peer_id == peer
        && handler == NotifyHandler::One(connection) && e == event
}

/// What an answered request leads to: the application is told of the request, and then the answer
/// goes to where the request came from. Nothing else changes but, for a record, the store.
pub open spec fn answers_with<S>(
    before: Behaviour<S>,
    after: Behaviour<S>,
    source: PeerId,
    connection: ConnectionId,
    request: InboundRequest,
    answer: HandlerIn,
) -> bool {
    let n = before.queued_events@.len() as int;
    let events = after.queued_events@;
    &&& events.len() == n + 2
    &&& before.queued_events@.is_prefix_of(events)
    &&& events[n] matches ToSwarm::GenerateEvent(Event::InboundRequest { request: r }) && r
        == request
    &&& goes_to(events[n + 1], source, connection, answer)
    &&& after == (Behaviour {
        queued_events: after.queued_events,
        store: after.store,
        ..before
    })
}

/// Two things that were queued stand behind those that were there.
proof fn lemma_queued_two<T>(before: Seq<T>, after: Seq<T>)
    requires
        queued_two(before, after),
    ensures
        after.len() == before.len() + 2,
        before.is_prefix_of(after),
        after.last() == after[before.len() as int + 1],
{
    let n = before.len() as int;
    let both = before.push(after[n]).push(after.last());
    assert(both.len() == n + 2);
    assert(after.subrange(0, n) =~= before) by {
        assert forall|i: int| 0 <= i < n implies after[i] == before[i] by {
            assert(both[i] == before[i]);
        }
    }
}

/// A peer that asks for a record is told the one of the local store, exactly as it is, whenever
/// there is one that has not expired when the clock is read; the application is told that it was
/// there. One that has expired is removed and not told. The peers closest to the key are told in
/// any case.
pub proof fn law_live_record_is_told<S: RecordStore>(
    before: Behaviour<S>,
    after: Behaviour<S>,
    source: PeerId,
    connection: ConnectionId,
    key: Key,
    request_id: RequestId,
    i: int,
    j: int,
    k: int,
) -> (seen: (Option<Record>, Moment, Vec<KadPeer>))
    requires
        before.wf(),
        event_handled_now(
            before,
            after,
            source,
            connection,
            HandlerEvent::GetRecord { key, request_id },
        ),
    ensures
        before.store.may_get(key, seen.0),
        shown_by(before.clock, seen.1),
        ({
            let (got, now, closer_peers) = seen;
            let live = got is Some && is_live(got->0.expires, now);
            &&& answers_with(
                before,
                after,
                source,
                connection,
                InboundRequest::GetRecord {
                    num_closer_peers: closer_peers@.len() as usize,
                    present_locally: live,
                },
                HandlerIn::GetRecordRes {
                    record: if live {
                        got
                    } else {
                        None
                    },
                    closer_peers,
                    request_id,
                },
            )
            &&& live || got is None ==> after.store == before.store
            &&& !live && got is Some ==> before.store.may_remove(key, after.store)
            &&& are_closest(
                before.kbuckets@,
                key_of_bytes(key@),
                source,
                before.queries.config.replication_factor@ as int,
                kad_peers(closer_peers@),
                i,
                j,
                k,
            )
        }),
{
    let event = HandlerEvent::GetRecord { key, request_id };
    let now = choose|now: Moment|
        is_present(before.clock, now) && #[trigger] event_handled(
            before,
            after,
            source,
            connection,
            event,
            now,
        );
    let got = choose|got: Option<Record>| #[trigger]
        before.store.may_get(key, got) && record_asked(
            before,
            after,
            source,
            connection,
            key,
            request_id,
            got,
            now,
        );
    lemma_queued_two(before.queued_events@, after.queued_events@);
    law_answer_holds_closest_peers(
        before.kbuckets@,
        key_of_bytes(key@),
        source,
        before.queries.config.replication_factor@ as nat,
        i,
        j,
        k,
    );
    let closer_peers = match after.queued_events@.last() {
        ToSwarm::NotifyHandler { event: HandlerIn::GetRecordRes { closer_peers, .. }, .. } => {
            closer_peers
        },
        _ => arbitrary(),
    };
    assert(kad_peers(closer_peers@).len() == closer_peers@.len());
    (got, now, closer_peers)
}

/// A peer that asks for the peers closest to a key is told them, and the application how many they
/// are.
pub proof fn law_closest_peers_are_told<S: RecordStore>(
    before: Behaviour<S>,
    after: Behaviour<S>,
    source: PeerId,
    connection: ConnectionId,
    key: Vec<u8>,
    request_id: RequestId,
    now: Moment,
    i: int,
    j: int,
    k: int,
) -> (closer_peers: Vec<KadPeer>)
    requires
        before.wf(),
        event_handled(
            before,
            after,
            source,
            connection,
            HandlerEvent::FindNodeReq { key, request_id },
            now,
        ),
    ensures
        answers_with(
            before,
            after,
            source,
            connection,
            InboundRequest::FindNode { num_closer_peers: closer_peers@.len() as usize },
            HandlerIn::FindNodeRes { closer_peers, request_id },
        ),
        after.store == before.store,
        are_closest(
            before.kbuckets@,
            key_of_bytes(key@),
            source,
            before.queries.config.replication_factor@ as int,
            kad_peers(closer_peers@),
            i,
            j,
            k,
        ),
{
    lemma_queued_two(before.queued_events@, after.queued_events@);
    law_answer_holds_closest_peers(
        before.kbuckets@,
        key_of_bytes(key@),
        source,
        before.queries.config.replication_factor@ as nat,
        i,
        j,
        k,
    );
    let closer_peers = match after.queued_events@.last() {
        ToSwarm::NotifyHandler { event: HandlerIn::FindNodeRes { closer_peers, .. }, .. } => {
            closer_peers
        },
        _ => arbitrary(),
    };
    assert(kad_peers(closer_peers@).len() == closer_peers@.len());
    closer_peers
}

/// Whether a provider is described as its record says: with the addresses of the record, or
/// without such, with those of the local node if it is the provider, or else with those that the
/// routing table knows.
pub open spec fn describes<S>(
    b: Behaviour<S>,
    own: Seq<Multiaddr>,
    record: ProviderRecord,
    peer: KadPeerView,
) -> bool {
    &&& peer.peer == record.provider
    &&& b.connected_peers@.contains(record.provider) ==> peer.connection
        == ConnectionType::Connected
    &&& !b.connected_peers@.contains(record.provider) ==> peer.connection
        == ConnectionType::NotConnected
    &&& if record.addresses@.len() > 0 {
        peer.addrs == record.addresses@
    } else if record.provider == b.local_peer_id {
        peer.addrs == own
    } else {
        knows_at(b.kbuckets@, record.provider, peer.addrs)
    }
}

/// Whether the routing table holds the key of a peer, or it waits for a place there, with the
/// given addresses.
pub open spec fn knows_at(t: TableView, peer: PeerId, addrs: Seq<Multiaddr>) -> bool {
    ||| exists|i: int|
        0 <= i < t.nodes.len() && key_of_peer((#[trigger] t.nodes[i]).peer) == key_of_peer(peer)
            && t.nodes[i].addrs == addrs
    ||| exists|i: int|
        0 <= i < t.pending.len() && key_of_peer((#[trigger] t.pending[i]).node.peer)
            == key_of_peer(peer) && t.pending[i].node.addrs == addrs
}

/// Whether the addresses of a provider are known, so that another peer can be told of it.
pub open spec fn can_tell<S>(b: Behaviour<S>, source: PeerId, record: ProviderRecord) -> bool {
    &&& record.provider != source
    &&& record.addresses@.len() > 0 || record.provider == b.local_peer_id || knows(
        b.kbuckets@,
        record.provider,
    )
}

/// Whether a list tells of the providers of records, in their order, as far as it can and up to a
/// number: `at` says which record each element of the list is about.
pub open spec fn tells_of<S>(
    b: Behaviour<S>,
    own: Seq<Multiaddr>,
    source: PeerId,
    records: Seq<ProviderRecord>,
    list: Seq<KadPeerView>,
    at: Seq<int>,
    most: int,
) -> bool {
    &&& at.len() == list.len()
    &&& list.len() <= most
    &&& forall|i: int|
        0 <= i < at.len() ==> 0 <= #[trigger] at[i] < records.len() && records[at[i]].provider
            != source && describes(b, own, records[at[i]], list[i])
    &&& forall|i: int, j: int| 0 <= i < j < at.len() ==> #[trigger] at[i] < #[trigger] at[j]
    &&& forall|k: int|
        0 <= k < records.len() && can_tell(b, source, #[trigger] records[k]) ==> at.contains(k) || (
        list.len() == most && forall|i: int| 0 <= i < at.len() ==> #[trigger] at[i] < k)
}

/// Which records the answers are about.
proof fn lemma_tells_of<S>(
    b: Behaviour<S>,
    own: Seq<Multiaddr>,
    source: PeerId,
    records: Seq<ProviderRecord>,
) -> (at: Seq<int>)
    requires
        b.wf(),
    ensures
        tells_of(
            b,
            own,
            source,
            records,
            provider_answers(records, source, b.kbuckets@, b.connected_peers@, own),
            at,
            records.len() as int + 1,
        ),
        at.len() <= records.len(),
    decreases records.len(),
{
    let t = b.kbuckets@;
    let list = provider_answers(records, source, t, b.connected_peers@, own);
    if records.len() == 0 {
        Seq::empty()
    } else {
        let front = records.drop_last();
        let n = records.len() - 1;
        let some = lemma_tells_of(b, own, source, front);
        let record = records.last();
        t.lemma_place(key_of_peer(record.provider));
        let answer = provider_answer(record, source, t, b.connected_peers@, own);
        let at = if answer is Some {
            some.push(n)
        } else {
            some
        };
        match t.place_of(record.provider) {
            Place::Present(i) => {
                assert(key_of_peer(t.nodes[i].peer) == key_of_peer(record.provider));
            },
            Place::Pending(i) => {
                assert(key_of_peer(t.pending[i].node.peer) == key_of_peer(record.provider));
            },
            _ => {
                if exists|i: int|
                    0 <= i < t.nodes.len() && key_of_peer((#[trigger] t.nodes[i]).peer)
                        == key_of_peer(record.provider) {
                    let i = choose|i: int|
                        0 <= i < t.nodes.len() && key_of_peer((#[trigger] t.nodes[i]).peer)
                            == key_of_peer(record.provider);
                    assert(t.node_is(i, key_of_peer(record.provider)));
                }
                if exists|i: int|
                    0 <= i < t.pending.len() && key_of_peer((#[trigger] t.pending[i]).node.peer)
                        == key_of_peer(record.provider) {
                    let i = choose|i: int|
                        0 <= i < t.pending.len() && key_of_peer((#[trigger] t.pending[i]).node.peer)
                            == key_of_peer(record.provider);
                    assert(t.pending_is(i, key_of_peer(record.provider)));
                }
            },
        }
        assert(can_tell(b, source, record) <==> answer is Some);
        assert forall|i: int| 0 <= i < at.len() implies 0 <= #[trigger] at[i] < records.len()
            && records[at[i]].provider != source && describes(
            b,
            own,
            records[at[i]],
            list[i],
        ) by {
            if i < some.len() {
                assert(at[i] == some[i]);
                assert(front[some[i]] == records[at[i]]);
            }
        }
        assert forall|k: int|
            0 <= k < records.len() && can_tell(b, source, #[trigger] records[k]) implies at.contains(
            k,
        ) by {
            if k < n {
                assert(front[k] == records[k]);
                assert(some.contains(k));
                let x = some.index_of(k);
                assert(at[x] == k);
            } else {
                assert(at[some.len() as int] == n);
            }
        }
        at
    }
}

/// Whether a list holds the addresses at which the local node can be reached.
pub open spec fn lists_own<S>(b: Behaviour<S>, own: Seq<Multiaddr>, a: Multiaddr) -> bool {
    own.contains(a) <==> listen_addrs(b.listen_addresses).contains(a) || external_addrs(
        b.external_addresses,
    ).contains(a)
}

/// A peer that asks for the providers of a key is told of those that the local store returns, in
/// their order and as many as records are replicated at, but for itself and for those whose
/// addresses are not known. It is also told the peers closest to the key.
pub proof fn law_providers_are_told<S: RecordStore>(
    before: Behaviour<S>,
    after: Behaviour<S>,
    source: PeerId,
    connection: ConnectionId,
    key: Key,
    request_id: RequestId,
    now: Moment,
    a: Multiaddr,
    i: int,
    j: int,
    k: int,
) -> (seen: (Seq<ProviderRecord>, Seq<Multiaddr>, Vec<KadPeer>, Vec<KadPeer>, Seq<int>))
    requires
        before.wf(),
        event_handled(
            before,
            after,
            source,
            connection,
            HandlerEvent::GetProvidersReq { key, request_id },
            now,
        ),
    ensures
        before.store.may_list_providers(key, seen.0),
        lists_own(before, seen.1, a),
        ({
            let (records, own, closer_peers, provider_peers, at) = seen;
            &&& answers_with(
                before,
                after,
                source,
                connection,
                InboundRequest::GetProvider {
                    num_closer_peers: closer_peers@.len() as usize,
                    num_provider_peers: provider_peers@.len() as usize,
                },
                HandlerIn::GetProvidersRes { closer_peers, provider_peers, request_id },
            )
            &&& tells_of(
                before,
                own,
                source,
                records,
                kad_peers(provider_peers@),
                at,
                before.queries.config.replication_factor@ as int,
            )
            &&& are_closest(
                before.kbuckets@,
                key_of_bytes(key@),
                source,
                before.queries.config.replication_factor@ as int,
                kad_peers(closer_peers@),
                i,
                j,
                k,
            )
        }),
        after.store == before.store,
{
    let most = before.queries.config.replication_factor@ as int;
    let (records, own) = choose|records: Seq<ProviderRecord>, own: Seq<Multiaddr>|
        before.store.may_list_providers(key, records) && own_addresses(before, own)
            && providers_asked(
            before,
            after,
            source,
            connection,
            key,
            request_id,
            #[trigger] providers_told(before, records, source, own),
        );
    lemma_queued_two(before.queued_events@, after.queued_events@);
    law_answer_holds_closest_peers(
        before.kbuckets@,
        key_of_bytes(key@),
        source,
        before.queries.config.replication_factor@ as nat,
        i,
        j,
        k,
    );
    let (closer_peers, provider_peers) = match after.queued_events@.last() {
        ToSwarm::NotifyHandler {
            event: HandlerIn::GetProvidersRes { closer_peers, provider_peers, .. },
            ..
        } => (closer_peers, provider_peers),
        _ => arbitrary(),
    };
    assert(kad_peers(closer_peers@).len() == closer_peers@.len());
    assert(kad_peers(provider_peers@).len() == provider_peers@.len());
    let listen = choose|listen: Seq<Multiaddr>| #[trigger]
        lists_set(listen, listen_addrs(before.listen_addresses)) && own == listen + external_addrs(
            before.external_addresses,
        );
    let external = external_addrs(before.external_addresses);
    if listen.contains(a) {
        assert(listen.to_set().contains(a));
        assert(own[listen.index_of(a)] == a);
    }
    if external.contains(a) {
        assert(own[listen.len() + external.index_of(a)] == a);
    }
    if own.contains(a) {
        let x = own.index_of(a);
        if x < listen.len() {
            assert(listen[x] == a);
            assert(listen.to_set().contains(a));
        } else {
            assert(external[x - listen.len()] == a);
        }
    }
    if listen_addrs(before.listen_addresses).contains(a) {
        assert(listen.to_set().contains(a));
        assert(listen.contains(a));
    }
    let all = provider_answers(
        records,
        source,
        before.kbuckets@,
        before.connected_peers@,
        own,
    );
    let whole = lemma_tells_of(before, own, source, records);
    let list = kad_peers(provider_peers@);
    let at = if all.len() <= most {
        whole
    } else {
        whole.take(most)
    };
    if all.len() > most {
        assert forall|x: int| 0 <= x < at.len() implies 0 <= #[trigger] at[x] < records.len()
            && records[at[x]].provider != source && describes(
            before,
            own,
            records[at[x]],
            list[x],
        ) by {
            assert(at[x] == whole[x]);
        }
        assert forall|x: int|
            0 <= x < records.len() && can_tell(before, source, #[trigger] records[x])
                && !at.contains(x) implies (forall|y: int|
            0 <= y < at.len() ==> #[trigger] at[y] < x) by {
            assert(whole.contains(x));
            let z = whole.index_of(x);
            if z < most {
                assert(at[z] == x);
            }
            assert forall|y: int| 0 <= y < at.len() implies #[trigger] at[y] < x by {
                assert(at[y] == whole[y]);
            }
        }
    }
    (records, own, closer_peers, provider_peers, at)
}

} // verus!
