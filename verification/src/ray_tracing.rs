//! Choosing the nearest hit among the surfaces that a ray meets.
//!
//! A distance is given by the bit pattern of a single-precision number. Among
//! positive numbers the patterns, read as unsigned integers, are ordered as the
//! numbers are, so the choice is made on integers alone.

use vstd::prelude::*;
use crate::number::{is_less, ZERO};

verus! {

/// The pattern of the largest finite distance. A hit counts only if it is nearer.
pub const FARTHEST: u32 = 0x7F7F_FFFF;

/// A surface was hit, strictly in front of the ray's origin and nearer than
/// `FARTHEST`.
pub open spec fn is_hit(distance: Option<u32>) -> bool {
    distance matches Some(d) && 0 < d < FARTHEST
}

/// `i` is the first position of `distances` that holds the smallest distance of
/// a hit.
pub open spec fn is_nearest(distances: Seq<Option<u32>>, i: int) -> bool {
    &&& 0 <= i < distances.len()
    &&& is_hit(distances[i])
    &&& forall|j: int|
        0 <= j < distances.len() && is_hit(#[trigger] distances[j]) ==> distances[i].unwrap()
            <= distances[j].unwrap()
    &&& forall|j: int|
        0 <= j < i && is_hit(#[trigger] distances[j]) ==> distances[i].unwrap()
            < distances[j].unwrap()
}

/// A hit is a distance above zero and below the largest finite number, and
/// among hits the smaller pattern is the smaller distance.
pub proof fn lemma_hits_are_ordered(a: u32, b: u32)
    ensures
        is_hit(Some(a)) <==> is_less(ZERO, a) && is_less(a, FARTHEST),
        is_hit(Some(a)) && is_hit(Some(b)) ==> (a < b <==> is_less(a, b)),
{
    assert(FARTHEST == 0x7F7F_FFFF);
    assert(ZERO == 0);
    if a < 0x8000_0000 && a > 0x7F80_0000 {
        assert(a / 0x80_0000 == 255);
    }
    if a < 0x7F80_0000 {
        assert(a / 0x80_0000 < 255);
    }
    if b < 0x7F80_0000 {
        assert(b / 0x80_0000 < 255);
    }
}

/// Scans the candidates of one ray, one for each object of the scene in the
/// scene's order, and gives the position of the nearest hit: the smallest
/// distance that is a hit, and of equal ones the first. `None` when the ray
/// meets nothing.
pub fn scene_intersect(distances: &Vec<Option<u32>>) -> (nearest: Option<usize>)
    ensures
        match nearest {
            Some(i) => is_nearest(distances@, i as int),
            None => forall|j: int| 0 <= j < distances@.len() ==> !is_hit(#[trigger] distances@[j]),
        },
{
    let mut closest: u32 = FARTHEST;
    let mut closest_object: Option<usize> = None;
    let mut k: usize = 0;
    while k < distances.len()
        invariant
            k <= distances@.len(),
            closest <= FARTHEST,
            match closest_object {
                Some(i) => i < k && is_nearest(distances@.take(k as int), i as int) && closest
                    == distances@[i as int].unwrap(),
                None => closest == FARTHEST && forall|j: int|
                    0 <= j < k ==> !is_hit(#[trigger] distances@[j]),
            },
        decreases distances@.len() - k,
    {
        let ghost before = distances@.take(k as int);
        let ghost after = distances@.take(k + 1);
        assert(forall|j: int| 0 <= j < k ==> before[j] == after[j]);
        assert(after[k as int] == distances@[k as int]);
        match distances[k] {
            Some(d) => {
                if d < closest && d > 0 {
                    closest = d;
                    closest_object = Some(k);
                }
            },
            None => {},
        }
        k += 1;
    }
    assert(distances@.take(k as int) =~= distances@);
    closest_object
}

/// The nearest hit does not depend on the order of the objects: two scans of
/// the same candidates in different orders select the same distance.
pub proof fn lemma_nearest_ignores_order(
    a: Seq<Option<u32>>,
    b: Seq<Option<u32>>,
    i: int,
    j: int,
)
    requires
        a.to_multiset() == b.to_multiset(),
        is_nearest(a, i),
        is_nearest(b, j),
    ensures
        a[i] == b[j],
{
    a.to_multiset_ensures();
    b.to_multiset_ensures();
    assert(a.contains(a[i]));
    assert(b.contains(b[j]));
    assert(b.to_multiset().count(a[i]) > 0);
    assert(a.to_multiset().count(b[j]) > 0);
    let p = choose|p: int| 0 <= p < b.len() && b[p] == a[i];
    let q = choose|q: int| 0 <= q < a.len() && a[q] == b[j];
    assert(is_hit(b[p]));
    assert(is_hit(a[q]));
}

/// The nearest object does not depend on the order of the objects either.
/// `b` holds the candidates of `a` in another order: position `k` of `b` is
/// the object at position `order[k]` of `a`. Where no other object is hit at
/// the distance of the nearest, both scans select the same object.
pub proof fn lemma_nearest_object_ignores_order(
    a: Seq<Option<u32>>,
    b: Seq<Option<u32>>,
    order: Seq<int>,
    i: int,
    j: int,
)
    requires
        a.len() == b.len() == order.len(),
        forall|k: int|
            0 <= k < order.len() ==> 0 <= #[trigger] order[k] < a.len() && b[k] == a[order[k]],
        forall|m: int| 0 <= m < a.len() ==> #[trigger] order.contains(m),
        is_nearest(a, i),
        is_nearest(b, j),
        forall|m: int| 0 <= m < a.len() && m != i ==> #[trigger] a[m] != a[i],
    ensures
        order[j] == i,
{
    assert(order.contains(i));
    let k = choose|k: int| 0 <= k < order.len() && #[trigger] order[k] == i;
    assert(b[k] == a[i]);
    assert(is_hit(b[k]));
    assert(b[j] == a[order[j]]);
    assert(is_hit(a[order[j]]));
}

/// Whether a ray meets anything does not depend on the order of the objects.
pub proof fn lemma_miss_ignores_order(a: Seq<Option<u32>>, b: Seq<Option<u32>>)
    requires
        a.to_multiset() == b.to_multiset(),
        forall|k: int| 0 <= k < a.len() ==> !is_hit(#[trigger] a[k]),
    ensures
        forall|k: int| 0 <= k < b.len() ==> !is_hit(#[trigger] b[k]),
{
    a.to_multiset_ensures();
    b.to_multiset_ensures();
    assert forall|k: int| 0 <= k < b.len() implies !is_hit(#[trigger] b[k]) by {
        assert(b.contains(b[k]));
        assert(a.to_multiset().count(b[k]) > 0);
        let q = choose|q: int| 0 <= q < a.len() && a[q] == b[k];
        assert(!is_hit(a[q]));
    }
}

} // verus!
