//! Spheres: which of the two places where a ray meets a sphere counts, and
//! radii a hair's breadth larger and smaller than a sphere's own, for the
//! points from which reflected and refracted rays start: such a ray must not
//! meet at once the surface that it leaves.
//!
//! Distances and radii are given by the bit patterns of single-precision
//! numbers. Among positive numbers the next larger pattern stands for the next
//! larger number.

use vstd::prelude::*;
use crate::number::{at_most, is_at_most, is_less, less, ZERO};

verus! {

/// The distance at which a ray meets a sphere. `near` and `far` are the two
/// solutions of the equation of ray and sphere, the smaller first. There is
/// none where the ray passes the centre farther off than the radius; else it is
/// the smaller solution that lies in front of the ray's origin.
pub open spec fn root_chosen(
    center_to_ray_square: u32,
    radius_square: u32,
    near: u32,
    far: u32,
) -> Option<u32> {
    if !is_at_most(center_to_ray_square, radius_square) {
        None
    } else if is_less(ZERO, near) {
        Some(near)
    } else if is_less(ZERO, far) {
        Some(far)
    } else {
        None
    }
}

/// A ray that starts outside a sphere and meets it, meets it where it
/// enters: where both solutions lie in front, the nearer one is chosen.
pub proof fn lemma_entry_is_chosen(center_to_ray_square: u32, radius_square: u32, near: u32, far: u32)
    requires
        is_at_most(center_to_ray_square, radius_square),
        is_less(ZERO, near),
        is_at_most(near, far),
    ensures
        root_chosen(center_to_ray_square, radius_square, near, far) == Some(near),
{
}

/// A sphere behind the ray is not met: where neither solution lies in front
/// there is no hit.
pub proof fn lemma_sphere_behind_is_missed(
    center_to_ray_square: u32,
    radius_square: u32,
    near: u32,
    far: u32,
)
    requires
        is_at_most(near, far),
        is_at_most(far, ZERO),
    ensures
        root_chosen(center_to_ray_square, radius_square, near, far).is_none(),
{
}

/// Chooses the distance at which a ray meets a sphere, from the squares of the
/// distance at which the ray passes the centre and of the radius, and from the
/// two solutions of the equation.
pub fn nearest_root(center_to_ray_square: u32, radius_square: u32, near: u32, far: u32) -> (root:
    Option<u32>)
    ensures
        root == root_chosen(center_to_ray_square, radius_square, near, far),
{
    if !at_most(center_to_ray_square, radius_square) {
        None
    } else if less(ZERO, near) {
        Some(near)
    } else if less(ZERO, far) {
        Some(far)
    } else {
        None
    }
}

/// By how many representable numbers a radius is changed.
pub const LAST_PLACE_UNIT_ERROR_MARGIN: u32 = 8;

/// The pattern stands for a number above zero and below infinity.
pub open spec fn is_positive_finite(bits: u32) -> bool {
    0 < bits < 0x7F80_0000
}

/// The radius that lies `LAST_PLACE_UNIT_ERROR_MARGIN` representable numbers
/// above the given one. `None` where the given pattern is no positive finite
/// number, or where so far above it there is none.
pub fn radius_outside(radius: u32) -> (outside: Option<u32>)
    ensures
        outside == if is_positive_finite(radius) && radius + LAST_PLACE_UNIT_ERROR_MARGIN
            < 0x7F80_0000 {
            Some((radius + LAST_PLACE_UNIT_ERROR_MARGIN) as u32)
        } else {
            None
        },
{
    if 0 < radius && radius < 0x7F80_0000 - LAST_PLACE_UNIT_ERROR_MARGIN {
        Some(radius + LAST_PLACE_UNIT_ERROR_MARGIN)
    } else {
        None
    }
}

/// The radius that lies `LAST_PLACE_UNIT_ERROR_MARGIN` representable numbers
/// below the given one. `None` where the given pattern is no positive finite
/// number, or where so far below it there is none above zero.
pub fn radius_inside(radius: u32) -> (inside: Option<u32>)
    ensures
        inside == if is_positive_finite(radius) && radius > LAST_PLACE_UNIT_ERROR_MARGIN {
            Some((radius - LAST_PLACE_UNIT_ERROR_MARGIN) as u32)
        } else {
            None
        },
{
    if LAST_PLACE_UNIT_ERROR_MARGIN < radius && radius < 0x7F80_0000 {
        Some(radius - LAST_PLACE_UNIT_ERROR_MARGIN)
    } else {
        None
    }
}

} // verus!
