//! The intersection scan: the nearest hit within one mesh and across the
//! candidates of a tick.

use vstd::prelude::*;
use vstd::seq_lib::to_multiset_contains;
use crate::distance::Distance;
use crate::entity::EntityId;

verus! {

/// One candidate of a tick after its mesh was tested against the ray: the
/// entity, and the distance of its nearest triangle if the ray hit any.
#[derive(Clone, Copy, Debug, PartialEq, Eq)]
pub struct Candidate {
    pub id: EntityId,
    pub hit: Option<Distance>,
}

/// The nearest hit of a tick.
#[derive(Clone, Copy, Debug, PartialEq, Eq, Structural)]
pub struct Hit {
    pub distance: Distance,
    pub id: EntityId,
}

/// Whether `d` is the least of the distances in `hits`: it occurs there, and
/// no hit is nearer.
pub open spec fn is_min_distance(hits: Seq<Option<Distance>>, d: Distance) -> bool {
    &&& exists|i: int| 0 <= i < hits.len() && #[trigger] hits[i] == Some(d)
    &&& forall|j: int|
        0 <= j < hits.len() ==> ((#[trigger] hits[j]) matches Some(e) ==> d.bits <= e.bits)
}

/// Whether none of `hits` is a hit.
pub open spec fn all_missed(hits: Seq<Option<Distance>>) -> bool {
    forall|j: int| 0 <= j < hits.len() ==> (#[trigger] hits[j]) is None
}

/// The nearest hit within one mesh, given the result of the triangle test for
/// each of its triangles: the least distance, or none if no triangle was hit.
pub fn min_distance(hits: &Vec<Option<Distance>>) -> (r: Option<Distance>)
    ensures
        r is None <==> all_missed(hits@),
        r matches Some(d) ==> is_min_distance(hits@, d),
{
    let mut min_dist: Option<Distance> = None;
    let mut k: usize = 0;
    while k < hits.len()
        invariant
            k <= hits.len(),
            min_dist is None <==> all_missed(hits@.take(k as int)),
            min_dist matches Some(d) ==> is_min_distance(hits@.take(k as int), d),
        decreases hits.len() - k,
    {
        let ghost before = hits@.take(k as int);
        let ghost after = hits@.take(k + 1);
        assert(forall|j: int| 0 <= j < k ==> after[j] == before[j]);
        assert(after[k as int] == hits@[k as int]);
        match (hits[k], min_dist) {
            (Some(d), Some(md)) => {
                let ghost i = choose|i: int| 0 <= i < before.len() && #[trigger] before[i] == Some(md);
                assert(after[i] == Some(md));
                if md.bits > d.bits {
                    min_dist = Some(d);
                }
            },
            (Some(d), None) => {
                min_dist = Some(d);
            },
            (None, Some(md)) => {
                let ghost i = choose|i: int| 0 <= i < before.len() && #[trigger] before[i] == Some(md);
                assert(after[i] == Some(md));
            },
            (None, None) => {},
        }
        k += 1;
    }
    assert(hits@.take(k as int) == hits@);
    min_dist
}

/// Whether no candidate was hit.
pub open spec fn no_hit(s: Seq<Candidate>) -> bool {
    forall|j: int| 0 <= j < s.len() ==> (#[trigger] s[j]).hit is None
}

/// Whether candidate `i` was hit at the least distance of `s`: the ray hit
/// it, and it hit no candidate nearer.
pub open spec fn is_least(s: Seq<Candidate>, i: int) -> bool {
    &&& 0 <= i < s.len()
    &&& s[i].hit matches Some(d)
    &&& forall|j: int|
        0 <= j < s.len() ==> ((#[trigger] s[j]).hit matches Some(e) ==> d.bits <= e.bits)
}

/// Whether candidate `i` is the nearest of `s`: it was hit at the least
/// distance, and every candidate before it was hit farther away or not at
/// all. Among candidates at the same least distance the first wins.
pub open spec fn is_nearest(s: Seq<Candidate>, i: int) -> bool {
    &&& is_least(s, i)
    &&& forall|j: int|
        0 <= j < i ==> ((#[trigger] s[j]).hit matches Some(e) ==> s[i].hit->0.bits < e.bits)
}

/// Whether `r` is the nearest hit of `s`: nothing if the ray hit no
/// candidate, else the distance and the entity of the nearest candidate.
pub open spec fn is_nearest_hit(s: Seq<Candidate>, r: Option<Hit>) -> bool {
    &&& r is None <==> no_hit(s)
    &&& r matches Some(h) ==> exists|i: int|
        is_nearest(s, i) && h.id == s[i].id && Some(h.distance) == s[i].hit
}

/// Whether at most one candidate of `s` was hit at the least distance.
pub open spec fn least_is_unique(s: Seq<Candidate>) -> bool {
    forall|i: int, j: int| is_least(s, i) && is_least(s, j) ==> i == j
}

/// The nearest hit across the candidates of a tick, taken in the order of the
/// list: the least distance and the entity that owns it.
pub fn nearest_hit(candidates: &Vec<Candidate>) -> (r: Option<Hit>)
    ensures
        is_nearest_hit(candidates@, r),
{
    let mut nearest: Option<Hit> = None;
    let ghost mut at: int = 0;
    let mut k: usize = 0;
    while k < candidates.len()
        invariant
            k <= candidates.len(),
            nearest is None <==> no_hit(candidates@.take(k as int)),
            nearest matches Some(h) ==> is_nearest(candidates@.take(k as int), at) && h.id
                == candidates@[at].id && Some(h.distance) == candidates@[at].hit,
        decreases candidates.len() - k,
    {
        let ghost before = candidates@.take(k as int);
        let ghost after = candidates@.take(k + 1);
        assert(forall|j: int| 0 <= j < k ==> after[j] == before[j]);
        assert(after[k as int] == candidates@[k as int]);
        let c = candidates[k];
        match (c.hit, nearest) {
            (Some(d), Some(h)) => {
                assert(before[at] == after[at]);
                if h.distance.bits > d.bits {
                    nearest = Some(Hit { distance: d, id: c.id });
                    proof {
                        at = k as int;
                    }
                }
            },
            (Some(d), None) => {
                nearest = Some(Hit { distance: d, id: c.id });
                proof {
                    at = k as int;
                }
            },
            (None, Some(h)) => {
                assert(before[at] == after[at]);
            },
            (None, None) => {},
        }
        k += 1;
    }
    assert(candidates@.take(k as int) == candidates@);
    nearest
}

/// A list of candidates has one nearest hit and no other: whatever meets
/// the contract of [`nearest_hit`] is the same value.
pub proof fn lemma_nearest_hit_unique(s: Seq<Candidate>, a: Option<Hit>, b: Option<Hit>)
    requires
        is_nearest_hit(s, a),
        is_nearest_hit(s, b),
    ensures
        a == b,
{
    if a is Some {
        let i = choose|i: int| is_nearest(s, i) && a->0.id == s[i].id && Some(a->0.distance) == s[i].hit;
        let j = choose|j: int| is_nearest(s, j) && b->0.id == s[j].id && Some(b->0.distance) == s[j].hit;
        assert(i == j) by {
            if i < j {
                assert(s[i].hit is Some);
            }
            if j < i {
                assert(s[j].hit is Some);
            }
        }
    }
}

/// The order of the candidates does not matter to the nearest hit unless two
/// of them tie: where `t` holds the candidates of `s` in another order and
/// only one candidate was hit at the least distance, both lists have the same
/// nearest hit.
pub proof fn lemma_nearest_hit_order_free(
    s: Seq<Candidate>,
    t: Seq<Candidate>,
    a: Option<Hit>,
    b: Option<Hit>,
)
    requires
        s.to_multiset() == t.to_multiset(),
        least_is_unique(s),
        is_nearest_hit(s, a),
        is_nearest_hit(t, b),
    ensures
        a == b,
{
    assert forall|c: Candidate| s.contains(c) <==> t.contains(c) by {
        to_multiset_contains(s, c);
        to_multiset_contains(t, c);
    }
    if a is None {
        assert forall|j: int| 0 <= j < t.len() implies (#[trigger] t[j]).hit is None by {
            assert(t.contains(t[j]));
            assert(s.contains(t[j]));
        }
    } else {
        let i = choose|i: int| is_nearest(s, i) && a->0.id == s[i].id && Some(a->0.distance) == s[i].hit;
        assert(s.contains(s[i]));
        assert(t.contains(s[i]));
        let m = choose|m: int| 0 <= m < t.len() && t[m] == s[i];
        assert(t[m].hit is Some);
        let j = choose|j: int| is_nearest(t, j) && b->0.id == t[j].id && Some(b->0.distance) == t[j].hit;
        assert(t.contains(t[j]));
        assert(s.contains(t[j]));
        let k = choose|k: int| 0 <= k < s.len() && s[k] == t[j];
        assert(is_least(s, k)) by {
            assert forall|n: int| 0 <= n < s.len() && (#[trigger] s[n]).hit is Some implies t[j].hit->0.bits
                <= s[n].hit->0.bits by {
                assert(s.contains(s[n]));
                assert(t.contains(s[n]));
                let q = choose|q: int| 0 <= q < t.len() && t[q] == s[n];
                assert(t[q].hit is Some);
            }
        }
        assert(k == i);
    }
}

/// Among candidates hit at the same least distance the first in the list
/// wins: no candidate before the nearest one was hit as near.
pub proof fn lemma_nearest_hit_first_wins(s: Seq<Candidate>, i: int, j: int)
    requires
        is_nearest(s, i),
        is_least(s, j),
    ensures
        i <= j,
{
    if j < i {
        assert(s[j].hit is Some);
    }
}

} // verus!
