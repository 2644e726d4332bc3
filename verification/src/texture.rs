//! Image textures: decoding a PNG file's bytes, dropping the alpha channel and
//! looking pixels up by surface coordinates.

use vstd::prelude::*;
use crate::buffer::{Buffer, Dimensions, Point, Rgb};
use crate::number::{
    at_most_of, exponent, exponent_of, is_nan, is_negative, lemma_cut_is_whole,
    lemma_times_and_over, lemma_two_to_doubles, lemma_two_to_grows, not_a_number, round_at,
    rounded, scale, scale_of, significand, significand_of, two_to, ONE, ZERO,
};
use crate::codec::{decode_png, png_frame};
use crate::common::{debug_pink, debug_pink_channels};

verus! {

/// Why a texture could not be made.
#[derive(Clone, Copy, Debug, PartialEq, Eq, Structural)]
pub enum TextureError {
    /// The bytes are no PNG image that the decoder accepts.
    Decoding,
    /// The image has no pixel.
    Empty,
    /// Three bytes for each pixel are more than a 32-bit offset reaches.
    TooLarge,
    /// The frame holds more colour bytes than the image has room for.
    Overfull,
}

/// How many bytes stay of `len` when every fourth is dropped.
pub open spec fn kept_len(len: int) -> int {
    len - len / 4
}

/// The frame without every fourth byte: of each group of four the first three
/// stay, in their order.
pub open spec fn without_alpha(frame: Seq<u8>) -> Seq<u8> {
    Seq::new(kept_len(frame.len() as int) as nat, |j: int| frame[j + j / 3])
}

/// The bytes of a texture of the given size made from a frame: the frame
/// without its alpha bytes, then zeros up to three bytes for each pixel.
pub open spec fn texture_bytes(width: u32, height: u32, frame: Seq<u8>) -> Seq<u8> {
    Seq::new(
        (3 * width * height) as nat,
        |j: int|
            if j < without_alpha(frame).len() {
                without_alpha(frame)[j]
            } else {
                0u8
            },
    )
}

/// Whether a frame of the given size makes a texture, and if not, why.
pub open spec fn frame_fault(width: u32, height: u32, frame: Seq<u8>) -> Option<TextureError> {
    if width == 0 || height == 0 {
        Some(TextureError::Empty)
    } else if 3 * width * height > u32::MAX {
        Some(TextureError::TooLarge)
    } else if kept_len(frame.len() as int) > 3 * width * height {
        Some(TextureError::Overfull)
    } else {
        None
    }
}

/// The pixel index along one side of `extent` pixels that is nearest to the
/// share `at` of the way from the first pixel to the last: the share, a number
/// given by its pattern, times `extent - 1`, rounded to the nearest whole
/// number, halves up. What lies behind the last pixel counts as the last, what
/// lies before the first or is no number as the first.
pub open spec fn nearest_index(at: u32, extent: u32) -> int {
    if is_nan(at) || is_negative(at) {
        0
    } else if exponent_of(at) == 255 {
        extent - 1
    } else {
        at_most_of(extent - 1, rounded((extent - 1) * significand_of(at), scale_of(at)))
    }
}

/// The nearest pixel lies inside the image.
pub proof fn lemma_nearest_index_inside(at: u32, extent: u32)
    requires
        extent >= 1,
    ensures
        0 <= nearest_index(at, extent) < extent,
{
    assert((extent - 1) * significand_of(at) >= 0) by (nonlinear_arith)
        requires
            extent >= 1,
            significand_of(at) >= 0,
    ;
    lemma_cut_is_whole((extent - 1) * significand_of(at), scale_of(at));
}

/// The share zero is the first pixel and the share one is the last.
pub proof fn lemma_shares_zero_and_one(extent: u32)
    requires
        extent >= 1,
    ensures
        nearest_index(ZERO, extent) == 0,
        nearest_index(ONE, extent) == extent - 1,
{
    assert(significand_of(ZERO) == 0 && scale_of(ZERO) == -149);
    assert((extent - 1) * 0 == 0);
    lemma_times_and_over(two_to(148) as int, 149);
    lemma_two_to_doubles(149);
    lemma_two_to_grows(0, 148);
    let half = two_to(148) as int;
    assert(half / (2 * half) == 0) by (nonlinear_arith)
        requires
            half >= 1,
    ;
    assert(significand_of(ONE) == 0x80_0000 && scale_of(ONE) == -23);
}

fn index_near(at: u32, extent: u32) -> (index: u32)
    requires
        extent >= 1,
    ensures
        index == nearest_index(at, extent),
        index < extent,
{
    if not_a_number(at) || at >= 0x8000_0000 {
        0
    } else if exponent(at) == 255 {
        extent - 1
    } else {
        let last: u32 = extent - 1;
        let held: u32 = significand(at);
        assert(0 <= last * held <= 0xFFFF_FFFF * 0xFF_FFFF) by (nonlinear_arith)
            requires
                0 <= last <= 0xFFFF_FFFF,
                0 <= held <= 0xFF_FFFF,
        ;
        round_at((last as u64) * (held as u64), scale(at), last)
    }
}

/// A texture: an image of three bytes for each pixel.
pub struct ImageTexture {
    image_buffer: Buffer,
}

impl View for ImageTexture {
    type V = Seq<u8>;

    closed spec fn view(&self) -> Seq<u8> {
        self.image_buffer@
    }
}

impl ImageTexture {
    pub closed spec fn width(&self) -> u32 {
        self.image_buffer.spec_width()
    }

    pub closed spec fn height(&self) -> u32 {
        self.image_buffer.spec_height()
    }

    #[verifier::type_invariant]
    spec fn inv(&self) -> bool {
        self.wf()
    }

    /// The texture has at least one pixel and exactly three bytes for each.
    /// Every texture is made so and stays so.
    pub open spec fn wf(&self) -> bool {
        &&& self.width() >= 1
        &&& self.height() >= 1
        &&& 3 * self.width() * self.height() <= u32::MAX
        &&& self@.len() == 3 * self.width() * self.height()
    }

    /// The colour of the pixel in column `x` of row `y`.
    pub open spec fn texel(&self, x: int, y: int) -> (u8, u8, u8) {
        crate::buffer::pixel_at(self@, crate::buffer::pixel_offset(x, y, self.width() as int))
    }

    /// Makes a texture of the given size from a decoded frame of four bytes
    /// for each pixel, of which the fourth is dropped.
    pub fn from_frame(width: u32, height: u32, frame: &Vec<u8>) -> (made: Result<
        ImageTexture,
        TextureError,
    >)
        ensures
            match made {
                Ok(texture) => frame_fault(width, height, frame@).is_none() && texture.wf()
                    && texture.width() == width && texture.height() == height && texture@
                    == texture_bytes(width, height, frame@),
                Err(fault) => frame_fault(width, height, frame@) == Some(fault),
            },
    {
        if width == 0 || height == 0 {
            return Err(TextureError::Empty);
        }
        assert(0 <= width * height <= 0xFFFF_FFFF * 0xFFFF_FFFF) by (nonlinear_arith)
            requires
                0 <= width <= 0xFFFF_FFFF,
                0 <= height <= 0xFFFF_FFFF,
        ;
        let pixels: u64 = (width as u64) * (height as u64);
        assert(3 * width * height == 3 * (width * height)) by (nonlinear_arith);
        if pixels > 0x5555_5555 {
            return Err(TextureError::TooLarge);
        }
        let room: usize = (3 * pixels) as usize;
        let kept: usize = frame.len() - frame.len() / 4;
        if kept > room {
            return Err(TextureError::Overfull);
        }
        let mut buffer = Buffer::new(Dimensions(width, height), 3);
        let mut idx: usize = 0;
        let mut idx_without_alpha: usize = 0;
        while idx < frame.len()
            invariant
                idx <= frame@.len(),
                idx_without_alpha == kept_len(idx as int),
                kept == kept_len(frame@.len() as int),
                kept <= room,
                room == 3 * width * height,
                buffer.spec_width() == width,
                buffer.spec_height() == height,
                buffer@.len() == room,
                forall|j: int| 0 <= j < idx_without_alpha ==> buffer@[j] == frame@[j + j / 3],
                forall|j: int| idx_without_alpha <= j < room ==> buffer@[j] == 0u8,
            decreases frame@.len() - idx,
        {
            if (idx + 1) % 4 == 0 {
                idx += 1;
                continue ;
            }
            buffer.set_raw_value(idx_without_alpha, frame[idx]);
            idx_without_alpha += 1;
            idx += 1;
        }
        assert(buffer@ =~= texture_bytes(width, height, frame@));
        Ok(ImageTexture { image_buffer: buffer })
    }

    /// Makes a texture from the bytes of a PNG file.
    pub fn load(encoded: &Vec<u8>) -> (made: Result<ImageTexture, TextureError>)
        ensures
            match png_frame(encoded@) {
                None => made == Err::<ImageTexture, TextureError>(TextureError::Decoding),
                Some((width, height, frame)) => match made {
                    Ok(texture) => frame_fault(width, height, frame).is_none() && texture.wf()
                        && texture.width() == width && texture.height() == height && texture@
                        == texture_bytes(width, height, frame),
                    Err(fault) => frame_fault(width, height, frame) == Some(fault),
                },
            },
    {
        match decode_png(encoded) {
            Ok(frame) => ImageTexture::from_frame(frame.width, frame.height, &frame.bytes),
            Err(_) => Err(TextureError::Decoding),
        }
    }

    /// The colour at the given surface coordinates, or the debugging colour
    /// where there are none.
    pub open spec fn color_at(&self, texture_coords: Option<(u32, u32)>) -> (
        u8,
        u8,
        u8,
    ) {
        match texture_coords {
            Some((x, y)) => self.texel(
                nearest_index(x, self.width()),
                nearest_index(y, self.height()),
            ),
            None => debug_pink_channels(),
        }
    }

    /// The colour of the pixel nearest to the given surface coordinates, each
    /// a share of the way across the image, given by its pattern. Without coordinates, the
    /// debugging colour.
    pub fn get(&self, texture_coords: Option<(u32, u32)>) -> (rgb: Rgb)
        ensures
            rgb@ == self.color_at(texture_coords),
    {
        proof {
            use_type_invariant(self);
        }
        match texture_coords {
            Some((x, y)) => {
                let column: u32 = index_near(x, *self.image_buffer.width());
                let row: u32 = index_near(y, *self.image_buffer.height());
                proof {
                    self.image_buffer.lemma_image_has_pixel(Point(column, row));
                }
                self.image_buffer.get(&Point(column, row))
            },
            None => debug_pink(),
        }
    }
}

} // verus!
