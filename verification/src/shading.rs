//! The decisions of the shading of one hit: which lights reach it, whether
//! further rays are sent, which medium a refracted ray enters, and how the
//! terms add up to a colour.

use vstd::prelude::*;
use crate::buffer::{channel_scaled, channel_sum, Rgb};
use crate::number::{at_most, at_most_one, hold_at_one, is_at_most, ZERO};

verus! {

/// Rays that have bounced this often send no further rays.
pub const BOUNCE_LIMIT: u8 = 4;

/// A ray that has bounced `bounce_count` times sends reflected and refracted
/// rays where it hits.
pub fn spawns_rays(bounce_count: u8) -> (spawns: bool)
    ensures
        spawns == (bounce_count < BOUNCE_LIMIT),
{
    bounce_count < BOUNCE_LIMIT
}

/// A light reaches the object that was hit unless the first thing its ray
/// meets is another object.
pub open spec fn reaches(hit_object: usize, first_met: Option<usize>) -> bool {
    match first_met {
        Some(object) => object == hit_object,
        None => true,
    }
}

/// `lights` names, in rising order and each once, exactly the lights that
/// reach the object.
pub open spec fn are_lights_reaching(
    lights: Seq<usize>,
    hit_object: usize,
    first_met: Seq<Option<usize>>,
) -> bool {
    &&& forall|i: int|
        0 <= i < lights.len() ==> (#[trigger] lights[i]) < first_met.len() && reaches(
            hit_object,
            first_met[lights[i] as int],
        )
    &&& forall|i: int, j: int| 0 <= i < j < lights.len() ==> lights[i] < lights[j]
    &&& forall|k: int|
        0 <= k < first_met.len() && reaches(hit_object, #[trigger] first_met[k])
            ==> lights.contains(k as usize)
}

/// A light whose ray meets another object before the hit adds nothing to the
/// shading: it is not among the lights that reach the hit.
pub proof fn lemma_blocked_light_is_left_out(
    lights: Seq<usize>,
    hit_object: usize,
    first_met: Seq<Option<usize>>,
    light: usize,
    blocker: usize,
)
    requires
        are_lights_reaching(lights, hit_object, first_met),
        light < first_met.len(),
        first_met[light as int] == Some(blocker),
        blocker != hit_object,
    ensures
        !lights.contains(light),
{
    if lights.contains(light) {
        let i = choose|i: int| 0 <= i < lights.len() && lights[i] == light;
        assert(reaches(hit_object, first_met[lights[i] as int]));
    }
}

/// The lights that shine on a hit. `first_met[k]` is the object that the ray
/// from light `k` toward the hit meets first, if any. A light whose ray meets
/// another object first is left out: it adds nothing to the shading.
pub fn lights_reaching(hit_object: usize, first_met: &Vec<Option<usize>>) -> (lights: Vec<usize>)
    ensures
        are_lights_reaching(lights@, hit_object, first_met@),
{
    let mut lights: Vec<usize> = Vec::new();
    let mut k: usize = 0;
    while k < first_met.len()
        invariant
            k <= first_met@.len(),
            forall|i: int|
                0 <= i < lights@.len() ==> (#[trigger] lights@[i]) < k && reaches(
                    hit_object,
                    first_met@[lights@[i] as int],
                ),
            forall|i: int, j: int| 0 <= i < j < lights@.len() ==> lights@[i] < lights@[j],
            forall|m: int|
                0 <= m < k && reaches(hit_object, #[trigger] first_met@[m]) ==> lights@.contains(
                    m as usize,
                ),
        decreases first_met@.len() - k,
    {
        let lit = match first_met[k] {
            Some(object) => object == hit_object,
            None => true,
        };
        if lit {
            let ghost before = lights@;
            lights.push(k);
            proof {
                assert(lights@[before.len() as int] == k);
                assert forall|m: int|
                    0 <= m < k + 1 && reaches(
                        hit_object,
                        #[trigger] first_met@[m],
                    ) implies lights@.contains(m as usize) by {
                    if m < k {
                        let i = choose|i: int| 0 <= i < before.len() && before[i] == m as usize;
                        assert(lights@[i] == m as usize);
                    }
                }
            }
        }
        k += 1;
    }
    lights
}

/// What a refracted ray does at the surface of an object: the medium it
/// travels in afterwards, and whether it leaves an object, in which case the
/// surface normal is turned round.
#[derive(Clone, Copy, Debug, PartialEq, Eq, Structural)]
pub struct Crossing {
    pub next_medium: Option<usize>,
    pub leaving: bool,
}

/// A ray in the open enters the object it hits; a ray inside an object leaves
/// into the open.
pub fn cross_surface(current_medium: Option<usize>, object: usize) -> (crossing: Crossing)
    ensures
        crossing.leaving == current_medium.is_some(),
        crossing.next_medium == if current_medium.is_some() {
            None
        } else {
            Some(object)
        },
{
    match current_medium {
        None => Crossing { next_medium: Some(object), leaving: false },
        Some(_) => Crossing { next_medium: None, leaving: true },
    }
}

/// Tells whether a ray passes through a surface or is thrown back whole.
/// `cos_t_square` is the square that Snell's law gives for the cosine of the
/// angle behind the surface, by its bit pattern. Where it is below zero, or no
/// number, there is no such angle: the ray does not pass and is reflected as by
/// a mirror.
pub fn passes_through(cos_t_square: u32) -> (passes: bool)
    ensures
        passes == is_at_most(ZERO, cos_t_square),
{
    at_most(ZERO, cos_t_square)
}

/// The colour of a hit: the surface colour scaled by the diffuse factor held
/// at 1 (factors are numbers given by their patterns), white scaled by the specular factor, the reflected and the refracted
/// colour, added channel by channel and held at 255.
pub open spec fn shaded(
    surface: (u8, u8, u8),
    diffuse: u32,
    specular: u32,
    reflection: (u8, u8, u8),
    refraction: (u8, u8, u8),
) -> (u8, u8, u8) {
    (
        shaded_channel(surface.0, diffuse, specular, reflection.0, refraction.0),
        shaded_channel(surface.1, diffuse, specular, reflection.1, refraction.1),
        shaded_channel(surface.2, diffuse, specular, reflection.2, refraction.2),
    )
}

/// One channel of `shaded`.
pub open spec fn shaded_channel(
    surface: u8,
    diffuse: u32,
    specular: u32,
    reflection: u8,
    refraction: u8,
) -> u8 {
    channel_sum(
        channel_sum(
            channel_sum(
                channel_scaled(surface, at_most_one(diffuse)),
                channel_scaled(255, specular),
            ),
            reflection,
        ),
        refraction,
    )
}

/// Adds up the terms of the shading of one hit.
pub fn shade(
    surface: Rgb,
    diffuse: u32,
    specular: u32,
    reflection: Rgb,
    refraction: Rgb,
) -> (color: Rgb)
    ensures
        color@ == shaded(surface@, diffuse, specular, reflection@, refraction@),
{
    let held = hold_at_one(diffuse);
    surface.mul(held).add(Rgb::new(255, 255, 255).mul(specular)).add(reflection).add(refraction)
}

} // verus!
