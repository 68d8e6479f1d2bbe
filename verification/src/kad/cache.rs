//! The peers at which a record can be cached after it was found.

use libp2p_identity::PeerId;
use vstd::prelude::*;

use crate::kad::key::Distance;
use crate::kad::order::at_most;

verus! {

/// Whether a list goes from the closest to the farthest, without equal distances.
pub open spec fn sorted(list: Seq<(Distance, PeerId)>) -> bool {
    forall|i: int, j: int|
        0 <= i < j < list.len() ==> (#[trigger] list[i]).0.lt((#[trigger] list[j]).0)
}

/// The number of candidates that are closer than `d`, in a list from the closest to the
/// farthest.
pub open spec fn rank(list: Seq<(Distance, PeerId)>, d: Distance) -> nat
    decreases list.len(),
{
    if list.len() == 0 {
        0
    } else if list.last().0.lt(d) {
        list.len()
    } else {
        rank(list.drop_last(), d)
    }
}

/// The candidates with one more in its place, where another one at the same distance gives way.
pub open spec fn with_candidate(list: Seq<(Distance, PeerId)>, d: Distance, peer: PeerId) -> Seq<
    (Distance, PeerId),
> {
    let at = rank(list, d) as int;
    if at < list.len() && list[at].0 == d {
        list.update(at, (d, peer))
    } else {
        list.insert(at, (d, peer))
    }
}

/// The candidates with one more in its place, and without the farthest if there are too many.
pub open spec fn cached(
    list: Seq<(Distance, PeerId)>,
    d: Distance,
    peer: PeerId,
    max_peers: nat,
) -> Seq<(Distance, PeerId)> {
    let all = with_candidate(list, d, peer);
    if all.len() > max_peers {
        all.drop_last()
    } else {
        all
    }
}

/// In a list that is in order, the candidates that are closer come first.
pub proof fn lemma_rank(list: Seq<(Distance, PeerId)>, d: Distance)
    requires
        sorted(list),
    ensures
        rank(list, d) <= list.len(),
        forall|i: int| 0 <= i < rank(list, d) ==> (#[trigger] list[i]).0.lt(d),
        forall|i: int| rank(list, d) <= i < list.len() ==> !(#[trigger] list[i]).0.lt(d),
    decreases list.len(),
{
    if list.len() > 0 {
        let n = list.len() - 1;
        assert(list.last() == list[n]);
        if list.last().0.lt(d) {
            assert forall|i: int| 0 <= i < list.len() implies (#[trigger] list[i]).0.lt(d) by {
                if i < n {
                    assert(list[i].0.lt(list[n].0));
                }
            }
        } else {
            lemma_rank(list.drop_last(), d);
            assert forall|i: int| 0 <= i < n implies #[trigger] list[i] == list.drop_last()[i] by {}
        }
    }
}

/// Adding a candidate keeps the list in order.
pub proof fn lemma_with_candidate(list: Seq<(Distance, PeerId)>, d: Distance, peer: PeerId)
    requires
        sorted(list),
    ensures
        sorted(with_candidate(list, d, peer)),
        with_candidate(list, d, peer).contains((d, peer)),
        with_candidate(list, d, peer).len() <= list.len() + 1,
        with_candidate(list, d, peer).len() > 0,
{
    lemma_rank(list, d);
    let at = rank(list, d) as int;
    let all = with_candidate(list, d, peer);
    assert(all[at] == (d, peer));
    if at < list.len() && list[at].0 == d {
        assert forall|i: int, j: int| 0 <= i < j < all.len() implies (#[trigger] all[i]).0.lt(
            (#[trigger] all[j]).0,
        ) by {
            assert(list[i].0.lt(list[j].0));
        }
    } else {
        assert forall|i: int, j: int| 0 <= i < j < all.len() implies (#[trigger] all[i]).0.lt(
            (#[trigger] all[j]).0,
        ) by {
            let i0 = if i < at {
                i
            } else {
                i - 1
            };
            let j0 = if j < at {
                j
            } else {
                j - 1
            };
            if i != at {
                assert(all[i] == list[i0]);
            }
            if j != at {
                assert(all[j] == list[j0]);
            }
            if i != at && j != at {
                assert(list[i0].0.lt(list[j0].0));
            } else if i == at {
                assert(!list[j0].0.lt(d));
                if j0 > at {
                    assert(list[at].0.lt(list[j0].0));
                    assert(!list[at].0.lt(d));
                }
            }
        }
    }
}

/// Where no more candidates are tracked than may be, the closest of them and one more stay, in
/// order and as many as may be tracked.
pub proof fn lemma_cached(
    list: Seq<(Distance, PeerId)>,
    d: Distance,
    peer: PeerId,
    max_peers: nat,
)
    requires
        sorted(list),
        list.len() <= max_peers,
    ensures
        sorted(cached(list, d, peer, max_peers)),
        cached(list, d, peer, max_peers) == at_most(with_candidate(list, d, peer), max_peers),
{
    lemma_with_candidate(list, d, peer);
    let all = with_candidate(list, d, peer);
    if all.len() > max_peers {
        assert(all.drop_last() =~= all.take(max_peers as int));
    }
}

/// Where too many candidates are dropped before one more comes, the same ones stay as where they
/// are dropped after it.
proof fn lemma_dropping_early(
    list: Seq<(Distance, PeerId)>,
    d: Distance,
    peer: PeerId,
    max_peers: nat,
)
    requires
        sorted(list),
    ensures
        at_most(with_candidate(at_most(list, max_peers), d, peer), max_peers) == at_most(
            with_candidate(list, d, peer),
            max_peers,
        ),
{
    let m = max_peers as int;
    if list.len() > max_peers {
        let kept = list.take(m);
        lemma_rank(list, d);
        lemma_rank(kept, d);
        let r = rank(list, d) as int;
        let k = rank(kept, d) as int;
        if r < m {
            assert(kept[r] == list[r]);
            if k < r {
                assert(kept[k] == list[k]);
            }
            assert(k == r);
        } else {
            if k < m {
                assert(kept[k] == list[k]);
            }
            assert(k == m);
        }
        assert(at_most(with_candidate(kept, d, peer), max_peers) =~= with_candidate(
            list,
            d,
            peer,
        ).take(m));
    }
}

/// All candidates of a series, each in its place.
pub open spec fn all_candidates(series: Seq<(Distance, PeerId)>) -> Seq<(Distance, PeerId)>
    decreases series.len(),
{
    if series.len() == 0 {
        Seq::empty()
    } else {
        with_candidate(all_candidates(series.drop_last()), series.last().0, series.last().1)
    }
}

/// The candidates that are tracked after a series of them has come.
pub open spec fn cached_all(series: Seq<(Distance, PeerId)>, max_peers: nat) -> Seq<
    (Distance, PeerId),
>
    decreases series.len(),
{
    if series.len() == 0 {
        Seq::empty()
    } else {
        cached(
            cached_all(series.drop_last(), max_peers),
            series.last().0,
            series.last().1,
            max_peers,
        )
    }
}

/// Of all candidates that have come, in order, the closest are tracked, and as many as may be.
pub proof fn law_closest_of_all_candidates_are_tracked(
    series: Seq<(Distance, PeerId)>,
    max_peers: nat,
)
    ensures
        sorted(all_candidates(series)),
        cached_all(series, max_peers) == at_most(all_candidates(series), max_peers),
    decreases series.len(),
{
    if series.len() > 0 {
        let earlier = series.drop_last();
        let (d, peer) = series.last();
        law_closest_of_all_candidates_are_tracked(earlier, max_peers);
        let all = all_candidates(earlier);
        lemma_with_candidate(all, d, peer);
        lemma_dropping_early(all, d, peer, max_peers);
        lemma_cached(cached_all(earlier, max_peers), d, peer, max_peers);
    } else {
        assert(all_candidates(series) =~= at_most(all_candidates(series), max_peers));
    }
}

/// Adds a candidate, and drops the farthest if there are too many.
pub fn add_candidate(list: &mut Vec<(Distance, PeerId)>, d: Distance, peer: PeerId, max_peers: u16)
    requires
        sorted(old(list)@),
    ensures
        sorted(final(list)@),
        final(list)@ == cached(old(list)@, d, peer, max_peers as nat),
{
    let ghost before = list@;
    proof {
        lemma_rank(before, d);
        lemma_with_candidate(before, d, peer);
    }
    let mut at: usize = list.len();
    assert(before.take(at as int) =~= before);
    while at > 0 && !list[at - 1].0.is_lt(&d)
        invariant
            at <= list@.len(),
            list@ == before,
            rank(before, d) == rank(before.take(at as int), d),
        decreases at,
    {
        proof {
            assert(before.take(at as int).last() == before[at - 1]);
            assert(before.take(at as int).drop_last() =~= before.take(at - 1));
        }
        at = at - 1;
    }
    proof {
        if at > 0 {
            assert(before.take(at as int).last() == before[at - 1]);
        }
    }
    if at < list.len() && list[at].0 == d {
        list[at] = (d, peer);
    } else {
        list.insert(at, (d, peer));
    }
    if list.len() > max_peers as usize {
        list.pop();
        assert(list@ =~= with_candidate(before, d, peer).drop_last());
    }
}

} // verus!
