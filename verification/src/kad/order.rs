//! Peers in the order of their distance to a key.

use libp2p_identity::PeerId;
use vstd::prelude::*;
use vstd::seq_lib::*;

use crate::kad::key::key_of_peer;
use crate::kad::key::Distance;
use crate::kad::key::KeyBytes;

verus! {

/// The distance of a peer to a key.
pub open spec fn peer_distance(peer: PeerId, target: KeyBytes) -> Distance {
    key_of_peer(peer).spec_distance(target)
}

/// A list in the order of distance with one more peer in its place.
pub open spec fn placed(list: Seq<PeerId>, peer: PeerId, target: KeyBytes) -> Seq<PeerId>
    decreases list.len(),
{
    if list.len() == 0 {
        seq![peer]
    } else if peer_distance(peer, target).lt(peer_distance(list.last(), target)) {
        placed(list.drop_last(), peer, target).push(list.last())
    } else {
        list.push(peer)
    }
}

/// The peers of a list, from the closest to the farthest.
pub open spec fn by_distance(list: Seq<PeerId>, target: KeyBytes) -> Seq<PeerId>
    decreases list.len(),
{
    if list.len() == 0 {
        Seq::empty()
    } else {
        placed(by_distance(list.drop_last(), target), list.last(), target)
    }
}

/// Whether a list goes from the closest to the farthest.
pub open spec fn in_order(list: Seq<PeerId>, target: KeyBytes) -> bool {
    forall|i: int, j: int|
        0 <= i <= j < list.len() ==> peer_distance(#[trigger] list[i], target).le(
            peer_distance(#[trigger] list[j], target),
        )
}

/// Placing a peer keeps the order and adds the peer.
pub proof fn lemma_placed(list: Seq<PeerId>, peer: PeerId, target: KeyBytes)
    requires
        in_order(list, target),
    ensures
        in_order(placed(list, peer, target), target),
        placed(list, peer, target).to_multiset() == list.to_multiset().insert(peer),
        placed(list, peer, target).len() == list.len() + 1,
    decreases list.len(),
{
    broadcast use group_to_multiset_ensures;

    let r = placed(list, peer, target);
    if list.len() == 0 {
        assert(seq![peer] =~= list.push(peer));
    } else if peer_distance(peer, target).lt(peer_distance(list.last(), target)) {
        let front = list.drop_last();
        lemma_placed(front, peer, target);
        let p = placed(front, peer, target);
        assert(front.push(list.last()) =~= list);
        assert forall|i: int, j: int| 0 <= i <= j < r.len() implies peer_distance(
            #[trigger] r[i],
            target,
        ).le(peer_distance(#[trigger] r[j], target)) by {
            if j < p.len() {
                assert(r[i] == p[i] && r[j] == p[j]);
            } else if i < p.len() {
                assert(p.to_multiset().count(p[i]) > 0) by {
                    assert(p.contains(p[i]));
                }
                assert(p[i] == peer || front.contains(p[i]));
                if front.contains(p[i]) {
                    let k = front.index_of(p[i]);
                    assert(list[k] == p[i]);
                    assert(list[list.len() - 1] == list.last());
                }
            }
        }
        assert(r.to_multiset() =~= list.to_multiset().insert(peer));
    } else {
        assert forall|i: int, j: int| 0 <= i <= j < r.len() implies peer_distance(
            #[trigger] r[i],
            target,
        ).le(peer_distance(#[trigger] r[j], target)) by {
            if j < list.len() {
                assert(r[i] == list[i] && r[j] == list[j]);
            } else if i < list.len() {
                assert(r[i] == list[i]);
                assert(list[list.len() - 1] == list.last());
            }
        }
    }
}

/// The peers of a list, from the closest to the farthest, are in order, and are the same as
/// in the list.
pub proof fn law_by_distance_sorts(list: Seq<PeerId>, target: KeyBytes)
    ensures
        in_order(by_distance(list, target), target),
        by_distance(list, target).to_multiset() == list.to_multiset(),
        by_distance(list, target).len() == list.len(),
        forall|p: PeerId| #[trigger]
            by_distance(list, target).contains(p) <==> list.contains(p),
    decreases list.len(),
{
    broadcast use group_to_multiset_ensures;

    let r = by_distance(list, target);
    if list.len() > 0 {
        let front = list.drop_last();
        law_by_distance_sorts(front, target);
        lemma_placed(by_distance(front, target), list.last(), target);
        assert(front.push(list.last()) =~= list);
    }
    assert forall|p: PeerId| #[trigger] r.contains(p) <==> list.contains(p) by {
        assert(r.contains(p) <==> r.to_multiset().count(p) > 0);
        assert(list.contains(p) <==> list.to_multiset().count(p) > 0);
    }
}

/// A list free of duplicates stays so when it is put in order.
pub proof fn lemma_by_distance_distinct(list: Seq<PeerId>, target: KeyBytes)
    requires
        list.no_duplicates(),
    ensures
        by_distance(list, target).no_duplicates(),
{
    law_by_distance_sorts(list, target);
    let r = by_distance(list, target);
    list.lemma_multiset_has_no_duplicates();
    assert(r.to_multiset() == list.to_multiset());
    r.lemma_multiset_has_no_duplicates_conv();
}

/// Puts one more peer in its place.
fn place(list: &mut Vec<PeerId>, peer: PeerId, target: &KeyBytes)
    ensures
        final(list)@ == placed(old(list)@, peer, *target),
{
    let d = KeyBytes::from_peer(&peer).distance(target);
    let ghost all = list@;
    let mut j: usize = list.len();
    assert(all.take(j as int) =~= all);
    assert(placed(all, peer, *target) =~= placed(all.take(j as int), peer, *target) + all.skip(
        j as int,
    ));
    while j > 0 && d.is_lt(&KeyBytes::from_peer(&list[j - 1]).distance(target))
        invariant
            j <= list@.len(),
            list@ == all,
            d == peer_distance(peer, *target),
            placed(all, peer, *target) == placed(all.take(j as int), peer, *target) + all.skip(
                j as int,
            ),
        decreases j,
    {
        proof {
            let head = all.take(j as int);
            assert(head.last() == all[j - 1]);
            assert(head.drop_last() =~= all.take(j - 1));
            assert(placed(all.take(j - 1), peer, *target).push(all[j - 1]) + all.skip(j as int)
                =~= placed(all.take(j - 1), peer, *target) + all.skip(j - 1));
        }
        j = j - 1;
    }
    proof {
        let head = all.take(j as int);
        if j > 0 {
            assert(head.last() == all[j - 1]);
        }
        assert(placed(head, peer, *target) =~= head.push(peer));
        assert(all.insert(j as int, peer) =~= head.push(peer) + all.skip(j as int));
    }
    list.insert(j, peer);
}

/// Puts peers in order, from the closest to the farthest.
pub fn sort_by_distance(list: &Vec<PeerId>, target: &KeyBytes) -> (r: Vec<PeerId>)
    ensures
        r@ == by_distance(list@, *target),
{
    let mut r: Vec<PeerId> = Vec::new();
    let n: usize = list.len();
    let mut i: usize = 0;
    while i < n
        invariant
            n == list@.len(),
            i <= n,
            r@ == by_distance(list@.take(i as int), *target),
        decreases n - i,
    {
        proof {
            assert(list@.take(i + 1).drop_last() =~= list@.take(i as int));
            assert(list@.take(i + 1).last() == list@[i as int]);
        }
        place(&mut r, list[i], target);
        i = i + 1;
    }
    assert(list@.take(n as int) =~= list@);
    r
}

/// The first `n` peers of a list, or all if there are fewer.
pub open spec fn at_most<T>(list: Seq<T>, n: nat) -> Seq<T> {
    if list.len() <= n {
        list
    } else {
        list.take(n as int)
    }
}

} // verus!
