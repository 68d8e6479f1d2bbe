//! What the answers of peers change in a query.

use libp2p_core::Multiaddr;
use libp2p_identity::PeerId;
use vstd::prelude::*;

use crate::assoc::add_item;
use crate::assoc::contains;
use crate::assoc::entries_insert;
use crate::assoc::has_key;
use crate::assoc::key_index;
use crate::assoc::keys_distinct;
use crate::assoc::lemma_entries_insert;
use crate::assoc::lemma_with_item;
use crate::assoc::with_item;
use crate::assoc::Assoc;
use crate::kad::cache::add_candidate;
use crate::kad::cache::cached;
use crate::kad::cache::lemma_cached;
use crate::kad::config::Caching;
use crate::kad::events::ProgressStep;
use crate::kad::events::PutRecordPhase;
use crate::kad::events::QueryInfo;
use crate::kad::key::key_of_bytes;
use crate::kad::key::key_of_peer;
use crate::kad::key::KeyBytes;
use crate::kad::lookups::keys_of;
use crate::kad::protocol::kad_peers;
use crate::kad::protocol::KadPeer;
use crate::kad::protocol::KadPeerView;
use crate::kad::query::addr_views;
use crate::kad::query::answered;
use crate::kad::query::lemma_addr_views_insert;
use crate::kad::query::Query;
use crate::kad::query::QueryPeers;
use crate::kad::record::Key;

verus! {

/// The providers of a list that were not reported before, each with its addresses.
pub open spec fn new_providers(list: Seq<KadPeerView>, before: Seq<PeerId>) -> Seq<
    (PeerId, Seq<Multiaddr>),
>
    decreases list.len(),
{
    if list.len() == 0 {
        Seq::empty()
    } else {
        let so_far = new_providers(list.drop_last(), before);
        if before.contains(list.last().peer) {
            so_far
        } else {
            entries_insert(so_far, list.last().peer, list.last().addrs)
        }
    }
}

/// What a report of providers changes in what a query is about.
pub open spec fn providers_noted(before: QueryInfo, after: QueryInfo, list: Seq<KadPeerView>) -> bool {
    match before {
        QueryInfo::GetProviders { key, reported, step, .. } => after
            matches QueryInfo::GetProviders {
            key: k,
            providers_found,
            reported: now_reported,
            step: next,
        } && k == key && now_reported@ == reported@ + keys_of(new_providers(list, reported@))
            && providers_found == now_reported@.len() && step.followed_by(next),
        _ => after == before,
    }
}

/// What an answer to the search for a record changes in what a query is about.
pub open spec fn record_noted(
    before: QueryInfo,
    after: QueryInfo,
    source: PeerId,
    found: bool,
    caching: Caching,
) -> bool {
    match before {
        QueryInfo::GetRecord { key, step, found_a_record, cache_candidates } => after
            matches QueryInfo::GetRecord {
            key: k,
            step: next,
            found_a_record: now_found,
            cache_candidates: now_candidates,
        } && k == key && if found {
            now_found && step.followed_by(next) && now_candidates == cache_candidates
        } else {
            &&& now_found == found_a_record
            &&& next == step
            &&& now_candidates@ == (match caching {
                Caching::Enabled { max_peers } => cached(
                    cache_candidates@,
                    key_of_peer(source).spec_distance(key_of_bytes(key@)),
                    source,
                    max_peers as nat,
                ),
                Caching::Disabled => cache_candidates@,
            })
        },
        _ => after == before,
    }
}

/// What the answer that a record was stored changes in a query: the peer is counted once, and
/// the query is to end when enough peers have stored the record.
pub open spec fn stored_at(source: PeerId) -> spec_fn(Query, Query) -> bool {
    |before: Query, after: Query|
        {
            &&& answered(
                before,
                Query {
                    info: before.info,
                    peers: QueryPeers { finished: before.peers.finished, ..after.peers },
                    ..after
                },
                source,
                Seq::empty(),
            )
            &&& match before.info {
                QueryInfo::PutRecord {
                    record,
                    quorum,
                    phase: PutRecordPhase::PutRecord { success, get_closest_peers_stats },
                    context,
                } => {
                    let now_stored = with_item(success@, source);
                    &&& after.info matches QueryInfo::PutRecord {
                        record: rec,
                        quorum: n,
                        phase: PutRecordPhase::PutRecord {
                            success: s,
                            get_closest_peers_stats: stats,
                        },
                        context: c,
                    } && rec == record && n == quorum && stats == get_closest_peers_stats && c
                        == context && s@ == now_stored
                    &&& after.peers.finished == (before.peers.finished || now_stored.len()
                        >= quorum@)
                },
                _ => after.info == before.info && after.peers.finished == before.peers.finished,
            }
        }
}

/// New providers are distinct, and none was reported before.
pub proof fn lemma_new_providers(list: Seq<KadPeerView>, before: Seq<PeerId>)
    ensures
        keys_distinct(new_providers(list, before)),
        forall|i: int|
            0 <= i < new_providers(list, before).len() ==> !before.contains(
                (#[trigger] new_providers(list, before)[i]).0,
            ),
    decreases list.len(),
{
    if list.len() > 0 {
        lemma_new_providers(list.drop_last(), before);
        let so_far = new_providers(list.drop_last(), before);
        lemma_entries_insert(so_far, list.last().peer, list.last().addrs);
        let all = new_providers(list, before);
        if !before.contains(list.last().peer) {
            assert forall|i: int| 0 <= i < all.len() implies !before.contains(
                (#[trigger] all[i]).0,
            ) by {
                if i < so_far.len() {
                    if has_key(so_far, list.last().peer) && i == key_index(
                        so_far,
                        list.last().peer,
                    ) {
                    } else {
                        assert(all[i] == so_far[i]);
                    }
                }
            }
        }
    }
}

/// No provider is reported twice for a query: those that a report adds are distinct, and are
/// none of those reported before.
pub proof fn law_no_provider_is_reported_twice(list: Seq<KadPeerView>, before: Seq<PeerId>)
    requires
        before.no_duplicates(),
    ensures
        (before + keys_of(new_providers(list, before))).no_duplicates(),
{
    lemma_new_providers(list, before);
    let fresh = new_providers(list, before);
    let all = before + keys_of(fresh);
    assert forall|a: int, b: int|
        0 <= a < all.len() && 0 <= b < all.len() && a != b implies all[a] != all[b] by {
        let (i, j) = if a < b {
            (a, b)
        } else {
            (b, a)
        };
        if j >= before.len() {
            let y = j - before.len();
            assert(all[j] == fresh[y].0);
            if i < before.len() {
                assert(before.contains(all[i]));
            } else {
                let x = i - before.len();
                assert(all[i] == fresh[x].0);
                assert(fresh[x].0 != fresh[y].0);
            }
        }
    }
}

/// Every provider of a list that was not reported before is among the new ones.
pub proof fn law_every_new_provider_is_reported(
    list: Seq<KadPeerView>,
    before: Seq<PeerId>,
    i: int,
)
    requires
        0 <= i < list.len(),
        !before.contains(list[i].peer),
    ensures
        has_key(new_providers(list, before), list[i].peer),
    decreases list.len(),
{
    let so_far = new_providers(list.drop_last(), before);
    let all = new_providers(list, before);
    lemma_new_providers(list.drop_last(), before);
    lemma_entries_insert(so_far, list.last().peer, list.last().addrs);
    if i == list.len() - 1 {
        if has_key(so_far, list.last().peer) {
            let k = key_index(so_far, list.last().peer);
            assert(all[k].0 == list.last().peer);
        } else {
            assert(all[so_far.len() as int].0 == list.last().peer);
        }
    } else {
        law_every_new_provider_is_reported(list.drop_last(), before, i);
        let k = key_index(so_far, list[i].peer);
        if !before.contains(list.last().peer) {
            assert(all[k].0 == list[i].peer);
        }
    }
}

/// Keeps those of a list of providers that were not reported before.
fn collect_new(list: &Vec<KadPeer>, before: &Vec<PeerId>) -> (r: Assoc<PeerId, Vec<Multiaddr>>)
    ensures
        r.wf(),
        addr_views(r.entries@) == new_providers(kad_peers(list@), before@),
{
    let ghost views = kad_peers(list@);
    let mut r: Assoc<PeerId, Vec<Multiaddr>> = Assoc::new();
    let n: usize = list.len();
    let mut i: usize = 0;
    assert(addr_views(r.entries@) =~= Seq::empty());
    while i < n
        invariant
            n == list@.len(),
            i <= n,
            r.wf(),
            views == kad_peers(list@),
            addr_views(r.entries@) == new_providers(views.take(i as int), before@),
        decreases n - i,
    {
        proof {
            assert(views[i as int] == list@[i as int]@);
            assert(views.take(i + 1).drop_last() =~= views.take(i as int));
            assert(views.take(i + 1).last() == views[i as int]);
        }
        if !contains(before, &list[i].node_id) {
            let addrs = list[i].multiaddrs.clone();
            proof {
                assert(addrs@ =~= list@[i as int].multiaddrs@);
                lemma_addr_views_insert(r.entries@, list@[i as int].node_id, addrs);
            }
            r.insert(list[i].node_id, addrs);
        }
        i = i + 1;
    }
    assert(views.take(n as int) =~= views);
    r
}

/// What is reported of new providers.
pub struct ProvidersReport {
    /// The key.
    pub key: Key,
    /// The providers.
    pub providers: Assoc<PeerId, Vec<Multiaddr>>,
    /// The number of the report.
    pub step: ProgressStep,
}

impl Query {
    /// Notes the providers that a peer has named, and returns what is to be reported of them
    /// if the query is a search for providers.
    pub fn note_providers(&mut self, list: &Vec<KadPeer>) -> (r: Option<ProvidersReport>)
        requires
            old(self).wf(),
            old(self).info is GetProviders ==> old(self).info.can_go_on(),
        ensures
            final(self).wf(),
            *final(self) == (Query { info: final(self).info, ..*old(self) }),
            providers_noted(old(self).info, final(self).info, kad_peers(list@)),
            match old(self).info {
                QueryInfo::GetProviders { key, reported, step, .. } => r matches Some(report)
                    && report.key == key && report.step == step && addr_views(
                    report.providers.entries@,
                ) == new_providers(kad_peers(list@), reported@),
                _ => r is None,
            },
    {
        match &mut self.info {
            QueryInfo::GetProviders { key, providers_found, reported, step } => {
                let ghost before = reported@;
                let providers = collect_new(list, reported);
                let ghost fresh = new_providers(kad_peers(list@), before);
                let n: usize = providers.entries.len();
                let mut i: usize = 0;
                assert(reported@ =~= before + keys_of(fresh).take(0));
                while i < n
                    invariant
                        n == providers.entries@.len(),
                        i <= n,
                        fresh == addr_views(providers.entries@),
                        reported@ == before + keys_of(fresh).take(i as int),
                    decreases n - i,
                {
                    let ghost listed = reported@;
                    reported.push(providers.entries[i].0);
                    proof {
                        assert(keys_of(fresh).take(i + 1) =~= keys_of(fresh).take(i as int).push(
                            keys_of(fresh)[i as int],
                        ));
                        assert(reported@ =~= before + keys_of(fresh).take(i + 1));
                    }
                    i = i + 1;
                }
                proof {
                    assert(keys_of(fresh).take(n as int) =~= keys_of(fresh));
                    law_no_provider_is_reported_twice(kad_peers(list@), before);
                }
                *providers_found = reported.len();
                let report = ProvidersReport { key: key.clone(), providers, step: *step };
                *step = step.next();
                Some(report)
            },
            _ => None,
        }
    }

    /// Notes an answer to the search for a record, and returns the number of the report that is
    /// to be made if a record was found and the query is such a search.
    pub fn note_record(&mut self, source: &PeerId, found: bool, caching: Caching) -> (r: Option<
        ProgressStep,
    >)
        requires
            old(self).wf(),
            old(self).info is GetRecord && found ==> old(self).info.can_go_on(),
        ensures
            final(self).wf(),
            *final(self) == (Query { info: final(self).info, ..*old(self) }),
            record_noted(old(self).info, final(self).info, *source, found, caching),
            old(self).info.caches_at_most(caching.most_candidates())
                ==> final(self).info.caches_at_most(caching.most_candidates()),
            match old(self).info {
                QueryInfo::GetRecord { step, .. } => if found {
                    r == Some(step)
                } else {
                    r is None
                },
                _ => r is None,
            },
    {
        match &mut self.info {
            QueryInfo::GetRecord { key, step, found_a_record, cache_candidates } => {
                if found {
                    *found_a_record = true;
                    let now_step = *step;
                    *step = step.next();
                    Some(now_step)
                } else {
                    if let Caching::Enabled { max_peers } = caching {
                        let bytes = key.to_vec();
                        let target_key = KeyBytes::new(&bytes);
                        let distance = KeyBytes::from_peer(source).distance(&target_key);
                        proof {
                            if cache_candidates@.len() <= max_peers {
                                lemma_cached(
                                    cache_candidates@,
                                    distance,
                                    *source,
                                    max_peers as nat,
                                );
                            }
                        }
                        add_candidate(cache_candidates, distance, *source, max_peers);
                    }
                    None
                }
            },
            _ => None,
        }
    }

    /// Notes that a peer has stored the record.
    pub fn note_stored(&mut self, source: &PeerId)
        requires
            old(self).wf(),
        ensures
            final(self).wf(),
            stored_at(*source)(*old(self), *final(self)),
    {
        let none: Vec<PeerId> = Vec::new();
        assert(none@ =~= Seq::empty());
        self.on_success(source, &none);
        let ghost mid = *self;
        let mut enough = false;
        match &mut self.info {
            QueryInfo::PutRecord {
                phase: PutRecordPhase::PutRecord { success, .. },
                quorum,
                ..
            } => {
                proof {
                    lemma_with_item(success@, *source);
                }
                add_item(success, *source);
                enough = success.len() >= quorum.get();
            },
            _ => {},
        }
        if enough {
            self.finish();
        }
    }
}

} // verus!
