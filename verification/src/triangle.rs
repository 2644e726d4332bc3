//! Triangles: when a ray is held to meet one, from the numbers that the
//! intersection of the ray with the triangle's plane gives. All numbers are
//! given by their bit patterns.

use vstd::prelude::*;
use crate::number::{
    at_most, is_at_most, is_less, is_near_zero, less, near_zero, EPSILON, ONE, ZERO,
};

verus! {

/// The ray meets the plane of the triangle inside the triangle. It does not
/// where it runs along the plane: where the product of its direction with the
/// triangle's normal, or the determinant of the equations, is nearer to zero
/// than 2^-23. Else `u` and `v` are the shares of the second and third corner
/// in the point where the ray meets the plane, and `sum` is `u + v`: the point
/// lies inside where neither share is below zero and the sum is at most one.
pub open spec fn is_inside(direction_dot_normal: u32, det: u32, u: u32, v: u32, sum: u32) -> bool {
    &&& !is_near_zero(direction_dot_normal)
    &&& !is_near_zero(det)
    &&& is_at_most(ZERO, u)
    &&& is_at_most(ZERO, v)
    &&& is_at_most(sum, ONE)
}

/// Tells whether the ray meets the plane of the triangle inside the triangle.
pub fn meets_inside(direction_dot_normal: u32, det: u32, u: u32, v: u32, sum: u32) -> (inside:
    bool)
    ensures
        inside == is_inside(direction_dot_normal, det, u, v, sum),
{
    !near_zero(direction_dot_normal) && !near_zero(det) && at_most(ZERO, u) && at_most(ZERO, v)
        && at_most(sum, ONE)
}

/// Tells whether a point at the distance `t` along the ray lies in front of
/// the ray's origin: farther than 2^-23.
pub fn is_ahead(t: u32) -> (ahead: bool)
    ensures
        ahead == is_less(EPSILON, t),
{
    less(EPSILON, t)
}

/// Tells whether two triangles lie in one plane, facing the same way: the
/// length of the difference of their unit normals is below 2^-23.
pub fn share_a_plane(normals_apart: u32) -> (flat: bool)
    ensures
        flat == is_less(normals_apart, EPSILON),
{
    less(normals_apart, EPSILON)
}

/// A ray along the plane of a triangle does not meet it, and no ray meets it
/// outside: not where a share is below zero, nor where the shares add up to
/// more than one.
pub proof fn lemma_rejects_parallel_and_outside(
    direction_dot_normal: u32,
    det: u32,
    u: u32,
    v: u32,
    sum: u32,
)
    ensures
        det == ZERO ==> !is_inside(direction_dot_normal, det, u, v, sum),
        direction_dot_normal == ZERO ==> !is_inside(direction_dot_normal, det, u, v, sum),
        is_less(u, ZERO) ==> !is_inside(direction_dot_normal, det, u, v, sum),
        is_less(v, ZERO) ==> !is_inside(direction_dot_normal, det, u, v, sum),
        is_less(ONE, sum) ==> !is_inside(direction_dot_normal, det, u, v, sum),
{
    assert(is_near_zero(ZERO)) by {
        assert(crate::number::MINUS_EPSILON / 0x80_0000 == 360);
        assert(EPSILON / 0x80_0000 == 104);
    }
}

} // verus!
