//! Materials: how a surface gets its colour, and the weights of the shading
//! terms.

use vstd::prelude::*;
use crate::buffer::Rgb;
use crate::number::{
    at_most_of, cut, cut_at, exponent, exponent_of, is_less, is_nan, is_negative, less,
    not_a_number, scale, scale_of, significand, significand_of, ONE, ZERO,
};
use crate::common::{debug_pink, debug_pink_channels};
use crate::texture::ImageTexture;

verus! {

/// The number of rows, and of columns, of a checkerboard.
pub const CHECKER_BOARD_ROWS: u8 = 8;

/// The pattern of 0.1.
pub const TENTH: u32 = 0x3DCC_CCCD;

/// The pattern of 0.2.
pub const TWO_TENTHS: u32 = 0x3E4C_CCCD;

/// The pattern of 0.5.
pub const HALF: u32 = 0x3F00_0000;

/// The pattern of 0.6.
pub const SIX_TENTHS: u32 = 0x3F19_999A;

/// The pattern of 0.8.
pub const EIGHT_TENTHS: u32 = 0x3F4C_CCCD;

/// The pattern of 0.9.
pub const NINE_TENTHS: u32 = 0x3F66_6666;

/// The pattern of 1.8.
pub const GLASS_INDEX: u32 = 0x3FE6_6666;

/// The pattern of 10.
pub const TEN: u32 = 0x4120_0000;

/// The pattern of 50.
pub const FIFTY: u32 = 0x4248_0000;

/// The pattern of 200.
pub const TWO_HUNDRED: u32 = 0x4348_0000;

/// The row or column of the checkerboard in which a surface coordinate lies:
/// the coordinate, a number given by its pattern, times the number of rows,
/// cut to a whole number. Coordinates of 1 and more, and what is no number,
/// count as the last row, coordinates below 0 as the first.
pub open spec fn checker_cell(at: u32) -> int {
    if is_nan(at) {
        CHECKER_BOARD_ROWS - 1
    } else if is_negative(at) {
        0
    } else if exponent_of(at) == 255 {
        CHECKER_BOARD_ROWS - 1
    } else {
        at_most_of(CHECKER_BOARD_ROWS - 1, cut(CHECKER_BOARD_ROWS * significand_of(at), scale_of(at)))
    }
}

fn cell_of(at: u32) -> (cell: u8)
    ensures
        cell == checker_cell(at),
        cell < CHECKER_BOARD_ROWS,
{
    if not_a_number(at) {
        CHECKER_BOARD_ROWS - 1
    } else if at >= 0x8000_0000 {
        0
    } else if exponent(at) == 255 {
        CHECKER_BOARD_ROWS - 1
    } else {
        let held: u32 = significand(at);
        cut_at((CHECKER_BOARD_ROWS as u64) * (held as u64), scale(at), (CHECKER_BOARD_ROWS - 1) as u32)
            as u8
    }
}

/// How a material gets its colour at a point of a surface.
pub enum ValueGenerator {
    /// One colour everywhere.
    SolidColor(Rgb),
    /// A board of light and dark squares.
    CheckerBoard(Rgb, Rgb),
    /// The nearest pixel of an image.
    ImageTexture(ImageTexture),
}

impl ValueGenerator {
    /// The colour at the given surface coordinates, each a share of the way
    /// across the surface, given by its pattern.
    pub open spec fn color_at(&self, texture_coords: Option<(u32, u32)>) -> (
        u8,
        u8,
        u8,
    ) {
        match self {
            ValueGenerator::SolidColor(color) => color@,
            ValueGenerator::CheckerBoard(light, dark) => match texture_coords {
                Some((x, y)) => if (checker_cell(x) + checker_cell(y)) % 2 == 0 {
                    light@
                } else {
                    dark@
                },
                None => debug_pink_channels(),
            },
            ValueGenerator::ImageTexture(texture) => texture.color_at(texture_coords),
        }
    }

    /// The colour at the given surface coordinates. A solid colour needs none;
    /// the others show the debugging colour where none are given.
    pub fn get(&self, texture_coords: Option<(u32, u32)>) -> (rgb: Rgb)
        ensures
            rgb@ == self.color_at(texture_coords),
    {
        match self {
            ValueGenerator::SolidColor(color) => *color,
            ValueGenerator::CheckerBoard(light, dark) => match texture_coords {
                Some((x, y)) => {
                    if (cell_of(x) + cell_of(y)) % 2 == 0 {
                        *light
                    } else {
                        *dark
                    }
                },
                None => debug_pink(),
            },
            ValueGenerator::ImageTexture(texture) => texture.get(texture_coords),
        }
    }
}

/// What a surface is made of. Each weight of `albedo` scales one term of the
/// shading on its own: diffuse, specular, reflective, transmissive. All
/// numbers are held by their patterns.
pub struct Material {
    pub diffuse_color: ValueGenerator,
    pub shininess: u32,
    pub albedo: (u32, u32, u32, u32),
    pub refractive_index: u32,
}

impl Material {
    /// The material mirrors: its reflective weight is above zero.
    pub fn reflects(&self) -> (mirrors: bool)
        ensures
            mirrors == is_less(ZERO, self.albedo.2),
    {
        less(ZERO, self.albedo.2)
    }

    /// The material lets light through: its transmissive weight is above
    /// zero.
    pub fn transmits(&self) -> (clear: bool)
        ensures
            clear == is_less(ZERO, self.albedo.3),
    {
        less(ZERO, self.albedo.3)
    }

    /// The shininess, the four weights and the refractive index of this
    /// material are these.
    pub open spec fn weighs(
        &self,
        shininess: u32,
        diffuse: u32,
        specular: u32,
        reflective: u32,
        transmissive: u32,
        refractive_index: u32,
    ) -> bool {
        &&& self.shininess == shininess
        &&& self.albedo == (diffuse, specular, reflective, transmissive)
        &&& self.refractive_index == refractive_index
    }
}

/// The materials of the scene.
pub struct Materials {}

impl Materials {
    pub fn solid_color(color: Rgb) -> (material: Material)
        ensures
            material.diffuse_color == ValueGenerator::SolidColor(color),
            material.weighs(ZERO, HALF, HALF, ZERO, ZERO, ZERO),
    {
        Material {
            diffuse_color: ValueGenerator::SolidColor(color),
            shininess: ZERO,
            albedo: (HALF, HALF, ZERO, ZERO),
            refractive_index: ZERO,
        }
    }

    pub fn checker_board() -> (material: Material)
        ensures
            material.diffuse_color matches ValueGenerator::CheckerBoard(light, dark) && light@ == (
                179u8,
                118u8,
                62u8,
            ) && dark@ == (67u8, 45u8, 35u8),
            material.weighs(FIFTY, EIGHT_TENTHS, SIX_TENTHS, TENTH, ZERO, ZERO),
    {
        Material {
            diffuse_color: ValueGenerator::CheckerBoard(
                Rgb::new(179, 118, 62),
                Rgb::new(67, 45, 35),
            ),
            shininess: FIFTY,
            albedo: (EIGHT_TENTHS, SIX_TENTHS, TENTH, ZERO),
            refractive_index: ZERO,
        }
    }

    pub fn rubbery_red_checker_board() -> (material: Material)
        ensures
            material.diffuse_color matches ValueGenerator::CheckerBoard(light, dark) && light@ == (
                190u8,
                30u8,
                30u8,
            ) && dark@ == (230u8, 30u8, 30u8),
            material.weighs(TEN, NINE_TENTHS, TENTH, ZERO, ZERO, ZERO),
    {
        Material {
            diffuse_color: ValueGenerator::CheckerBoard(
                Rgb::new(190, 30, 30),
                Rgb::new(230, 30, 30),
            ),
            shininess: TEN,
            albedo: (NINE_TENTHS, TENTH, ZERO, ZERO),
            refractive_index: ZERO,
        }
    }

    pub fn glossy_blue() -> (material: Material)
        ensures
            material.diffuse_color matches ValueGenerator::SolidColor(color) && color@ == (
                50u8,
                50u8,
                170u8,
            ),
            material.weighs(TWO_HUNDRED, HALF, HALF, ZERO, ZERO, ZERO),
    {
        Material {
            diffuse_color: ValueGenerator::SolidColor(Rgb::new(50, 50, 170)),
            shininess: TWO_HUNDRED,
            albedo: (HALF, HALF, ZERO, ZERO),
            refractive_index: ZERO,
        }
    }

    pub fn rubbery_red() -> (material: Material)
        ensures
            material.diffuse_color matches ValueGenerator::SolidColor(color) && color@ == (
                190u8,
                30u8,
                30u8,
            ),
            material.weighs(TEN, NINE_TENTHS, TENTH, ZERO, ZERO, ZERO),
    {
        Material {
            diffuse_color: ValueGenerator::SolidColor(Rgb::new(190, 30, 30)),
            shininess: TEN,
            albedo: (NINE_TENTHS, TENTH, ZERO, ZERO),
            refractive_index: ZERO,
        }
    }

    pub fn glossy_green() -> (material: Material)
        ensures
            material.diffuse_color matches ValueGenerator::SolidColor(color) && color@ == (
                50u8,
                250u8,
                50u8,
            ),
            material.weighs(FIFTY, EIGHT_TENTHS, SIX_TENTHS, TENTH, ZERO, ZERO),
    {
        Material {
            diffuse_color: ValueGenerator::SolidColor(Rgb::new(50, 250, 50)),
            shininess: FIFTY,
            albedo: (EIGHT_TENTHS, SIX_TENTHS, TENTH, ZERO),
            refractive_index: ZERO,
        }
    }

    pub fn mirror() -> (material: Material)
        ensures
            material.diffuse_color matches ValueGenerator::SolidColor(color) && color@ == (
                10u8,
                10u8,
                10u8,
            ),
            material.weighs(TWO_HUNDRED, TWO_TENTHS, SIX_TENTHS, EIGHT_TENTHS, ZERO, ZERO),
    {
        Material {
            diffuse_color: ValueGenerator::SolidColor(Rgb::new(10, 10, 10)),
            shininess: TWO_HUNDRED,
            albedo: (TWO_TENTHS, SIX_TENTHS, EIGHT_TENTHS, ZERO),
            refractive_index: ZERO,
        }
    }

    pub fn glass() -> (material: Material)
        ensures
            material.diffuse_color matches ValueGenerator::SolidColor(color) && color@ == (
                10u8,
                10u8,
                10u8,
            ),
            material.weighs(TWO_HUNDRED, ZERO, SIX_TENTHS, ZERO, NINE_TENTHS, GLASS_INDEX),
    {
        Material {
            diffuse_color: ValueGenerator::SolidColor(Rgb::new(10, 10, 10)),
            shininess: TWO_HUNDRED,
            albedo: (ZERO, SIX_TENTHS, ZERO, NINE_TENTHS),
            refractive_index: GLASS_INDEX,
        }
    }

    /// The sky: the given image, with nothing but its own colour.
    pub fn skysphere(sky: ImageTexture) -> (material: Material)
        ensures
            material.diffuse_color == ValueGenerator::ImageTexture(sky),
            material.weighs(ZERO, ONE, ZERO, ZERO, ZERO, ZERO),
    {
        Material {
            diffuse_color: ValueGenerator::ImageTexture(sky),
            shininess: ZERO,
            albedo: (ONE, ZERO, ZERO, ZERO),
            refractive_index: ZERO,
        }
    }
}

} // verus!
