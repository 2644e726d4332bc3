//! Colours and the flat, row-major image buffer that holds them.

use vstd::prelude::*;
use crate::number::{
    at_most_of, cut, cut_at, exponent, exponent_of, in_single, is_at_most, is_nan, is_negative,
    lemma_cut_doubles, lemma_cut_grows, lemma_cut_is_whole, lemma_cut_grows_with_scale, lemma_in_single_grows,
    lemma_nearest_even_bounds, lemma_two_to_values, not_a_number, scale, scale_of, significand,
    significand_of, to_single, unit_of, ONE, ZERO,
};

verus! {

/// A pixel position: column, then row.
pub struct Point(pub u32, pub u32);

/// An image size in pixels: width, then height.
pub struct Dimensions(pub u32, pub u32);

/// A colour of three 8-bit channels.
#[derive(Clone, Copy, Debug, PartialEq, Eq, Structural)]
pub struct Rgb {
    red: u8,
    green: u8,
    blue: u8,
}

/// The sum of two channel values, held at 255.
pub open spec fn channel_sum(a: u8, b: u8) -> u8 {
    if a + b > 255 {
        255u8
    } else {
        (a + b) as u8
    }
}

/// A channel value times the number with the given pattern, as single
/// precision computes it: the product rounded to 24 leading bits, ties to
/// even, then cut to a whole number and held between 0 and 255. What is no
/// number gives 0.
pub open spec fn channel_scaled(c: u8, factor: u32) -> u8 {
    if c == 0 || is_nan(factor) || is_negative(factor) || significand_of(factor) == 0 {
        0u8
    } else if exponent_of(factor) == 255 {
        255u8
    } else {
        at_most_of(255, cut(in_single(c * significand_of(factor)), scale_of(factor))) as u8
    }
}

/// Scaling never wraps: where the exact product of a channel and a factor
/// is 255 or more, the channel is held at 255.
pub proof fn lemma_scaling_saturates(c: u8, factor: u32)
    requires
        !is_nan(factor),
        !is_negative(factor),
        exponent_of(factor) == 255 && c > 0 || exponent_of(factor) != 255 && cut(
            c * significand_of(factor),
            scale_of(factor),
        ) >= 255,
    ensures
        channel_scaled(c, factor) == 255,
{
    if exponent_of(factor) != 255 {
        let s = significand_of(factor);
        let e = scale_of(factor);
        let n = c * s;
        assert(0 <= n <= 255 * 0xFF_FFFF) by (nonlinear_arith)
            requires
                n == c * s,
                0 <= c <= 255,
                0 <= s <= 0xFF_FFFF,
        ;
        assert(c == 0 || s == 0 ==> n == 0) by (nonlinear_arith)
            requires
                n == c * s,
        ;
        lemma_cut_is_whole(n, e);
        assert(cut(0, e) == 0) by {
            let size = (if e >= 0 {
                e
            } else {
                -e
            }) as nat;
            crate::number::lemma_times_and_over(0, size);
            crate::number::lemma_two_to_grows(0, size);
            let d = crate::number::two_to(size) as int;
            assert(0int * d == 0 && 0int / d == 0) by (nonlinear_arith)
                requires
                    d >= 1,
            ;
        }
        let v = in_single(n);
        if n < 0x100_0000 {
        } else if e >= 0 {
            lemma_in_single_grows(0x100_0000, n);
            lemma_cut_grows(0x100_0000, v, e);
            lemma_cut_grows_with_scale(0x100_0000, 0, e);
        } else if e <= -25 {
            lemma_cut_grows_with_scale(n, e, -25);
        } else if e == -1 {
        assert(n >= 0x1fe);
        lemma_in_single_grows(0x1fe, n);
        lemma_cut_grows(0x1fe, v, e);
    } else if e == -2 {
        assert(n >= 0x3fc);
        lemma_in_single_grows(0x3fc, n);
        lemma_cut_grows(0x3fc, v, e);
    } else if e == -3 {
        assert(n >= 0x7f8);
        lemma_in_single_grows(0x7f8, n);
        lemma_cut_grows(0x7f8, v, e);
    } else if e == -4 {
        assert(n >= 0xff0);
        lemma_in_single_grows(0xff0, n);
        lemma_cut_grows(0xff0, v, e);
    } else if e == -5 {
        assert(n >= 0x1fe0);
        lemma_in_single_grows(0x1fe0, n);
        lemma_cut_grows(0x1fe0, v, e);
    } else if e == -6 {
        assert(n >= 0x3fc0);
        lemma_in_single_grows(0x3fc0, n);
        lemma_cut_grows(0x3fc0, v, e);
    } else if e == -7 {
        assert(n >= 0x7f80);
        lemma_in_single_grows(0x7f80, n);
        lemma_cut_grows(0x7f80, v, e);
    } else if e == -8 {
        assert(n >= 0xff00);
        lemma_in_single_grows(0xff00, n);
        lemma_cut_grows(0xff00, v, e);
    } else if e == -9 {
        assert(n >= 0x1fe00);
        lemma_in_single_grows(0x1fe00, n);
        lemma_cut_grows(0x1fe00, v, e);
    } else if e == -10 {
        assert(n >= 0x3fc00);
        lemma_in_single_grows(0x3fc00, n);
        lemma_cut_grows(0x3fc00, v, e);
    } else if e == -11 {
        assert(n >= 0x7f800);
        lemma_in_single_grows(0x7f800, n);
        lemma_cut_grows(0x7f800, v, e);
    } else if e == -12 {
        assert(n >= 0xff000);
        lemma_in_single_grows(0xff000, n);
        lemma_cut_grows(0xff000, v, e);
    } else if e == -13 {
        assert(n >= 0x1fe000);
        lemma_in_single_grows(0x1fe000, n);
        lemma_cut_grows(0x1fe000, v, e);
    } else if e == -14 {
        assert(n >= 0x3fc000);
        lemma_in_single_grows(0x3fc000, n);
        lemma_cut_grows(0x3fc000, v, e);
    } else if e == -15 {
        assert(n >= 0x7f8000);
        lemma_in_single_grows(0x7f8000, n);
        lemma_cut_grows(0x7f8000, v, e);
    } else if e == -16 {
        assert(n >= 0xff0000);
        lemma_in_single_grows(0xff0000, n);
        lemma_cut_grows(0xff0000, v, e);
    } else if e == -17 {
        assert(n >= 0x1fe0000);
        lemma_in_single_grows(0x1fe0000, n);
        lemma_cut_grows(0x1fe0000, v, e);
    } else if e == -18 {
        assert(n >= 0x3fc0000);
        lemma_in_single_grows(0x3fc0000, n);
        lemma_cut_grows(0x3fc0000, v, e);
    } else if e == -19 {
        assert(n >= 0x7f80000);
        lemma_in_single_grows(0x7f80000, n);
        lemma_cut_grows(0x7f80000, v, e);
    } else if e == -20 {
        assert(n >= 0xff00000);
        lemma_in_single_grows(0xff00000, n);
        lemma_cut_grows(0xff00000, v, e);
    } else if e == -21 {
        assert(n >= 0x1fe00000);
        lemma_in_single_grows(0x1fe00000, n);
        lemma_cut_grows(0x1fe00000, v, e);
    } else if e == -22 {
        assert(n >= 0x3fc00000);
        lemma_in_single_grows(0x3fc00000, n);
        lemma_cut_grows(0x3fc00000, v, e);
    } else if e == -23 {
        assert(n >= 0x7f800000);
        lemma_in_single_grows(0x7f800000, n);
        lemma_cut_grows(0x7f800000, v, e);
    } else if e == -24 {
        assert(n >= 0xff000000);
        lemma_in_single_grows(0xff000000, n);
        lemma_cut_grows(0xff000000, v, e);
    }
        assert(cut(v, e) >= 255);
    }
}

/// A colour times one is the colour, and times zero it is black.
pub proof fn lemma_scaling_by_one_and_zero(c: u8)
    ensures
        channel_scaled(c, ONE) == c,
        channel_scaled(c, ZERO) == 0,
{
    lemma_two_to_values();
    assert(exponent_of(ONE) == 127);
    assert(significand_of(ONE) == 0x80_0000);
    assert(scale_of(ONE) == -23);
    assert(significand_of(ZERO) == 0);
    let n = c * 0x80_0000;
    assert(n % unit_of(n) == 0);
    if n < 0x100_0000 {
    } else if n < 0x200_0000 {
        assert((n / 2) * 2 == n);
    } else if n < 0x400_0000 {
        assert((n / 4) * 4 == n);
    } else if n < 0x800_0000 {
        assert((n / 8) * 8 == n);
    } else if n < 0x1000_0000 {
        assert((n / 16) * 16 == n);
    } else if n < 0x2000_0000 {
        assert((n / 32) * 32 == n);
    } else if n < 0x4000_0000 {
        assert((n / 64) * 64 == n);
    } else {
        assert(n == (c * 0x1_0000) * 128);
        assert(n / 128 == c * 0x1_0000);
    }
    assert(in_single(n) == n);
    assert(cut(n, -23) == n / 0x80_0000);
}

/// A whole multiple of 2^23 below 2^32 is held as it is.
proof fn lemma_multiple_is_held(n: int)
    requires
        0 <= n < 0x1_0000_0000,
        n % 0x80_0000 == 0,
    ensures
        in_single(n) == n,
{
    let u = unit_of(n);
    assert(n % u == 0);
    if u == 1 {
    } else if u == 2 {
        assert((n / 2) * 2 == n);
    } else if u == 4 {
        assert((n / 4) * 4 == n);
    } else if u == 8 {
        assert((n / 8) * 8 == n);
    } else if u == 16 {
        assert((n / 16) * 16 == n);
    } else if u == 32 {
        assert((n / 32) * 32 == n);
    } else if u == 64 {
        assert((n / 64) * 64 == n);
    } else if u == 128 {
        assert((n / 128) * 128 == n);
    } else {
        assert((n / 256) * 256 == n);
    }
}

/// Scaling keeps the order of the factors: a larger factor never gives a
/// smaller channel.
pub proof fn lemma_scaling_grows(c: u8, smaller: u32, larger: u32)
    requires
        is_at_most(smaller, larger),
    ensures
        channel_scaled(c, smaller) <= channel_scaled(c, larger),
{
    let a = smaller;
    let b = larger;
    if c == 0 || is_negative(a) || significand_of(a) == 0 {
        assert(channel_scaled(c, a) == 0);
    } else if exponent_of(b) == 255 {
        assert(0 < a <= b);
        assert(channel_scaled(c, b) == 255);
    } else {
        assert(0 < a <= b < 0x7F80_0000);
        let s1 = significand_of(a);
        let s2 = significand_of(b);
        let e1 = scale_of(a);
        let e2 = scale_of(b);
        assert(e1 <= e2);
        assert(0 <= c * s1 <= 255 * 0xFF_FFFF && 0 <= c * s2 <= 255 * 0xFF_FFFF)
            by (nonlinear_arith)
            requires
                0 <= c <= 255,
                0 <= s1 <= 0xFF_FFFF,
                0 <= s2 <= 0xFF_FFFF,
        ;
        let v1 = in_single(c * s1);
        let v2 = in_single(c * s2);
        lemma_nearest_even_bounds(c * s1, unit_of(c * s1));
        lemma_nearest_even_bounds(c * s2, unit_of(c * s2));
        assert(v1 >= 0 && v2 >= 0) by (nonlinear_arith)
            requires
                v1 >= ((c * s1) / unit_of(c * s1)) * unit_of(c * s1),
                v2 >= ((c * s2) / unit_of(c * s2)) * unit_of(c * s2),
                (c * s1) / unit_of(c * s1) >= 0,
                (c * s2) / unit_of(c * s2) >= 0,
                unit_of(c * s1) >= 1,
                unit_of(c * s2) >= 1,
        ;
        if e1 == e2 {
            assert(s1 <= s2);
            assert(c * s1 <= c * s2) by (nonlinear_arith)
                requires
                    s1 <= s2,
                    c >= 0,
            ;
            lemma_in_single_grows(c * s1, c * s2);
            lemma_cut_grows(v1, v2, e1);
        } else {
            assert(s2 >= 0x80_0000);
            let top = c * 0x100_0000;
            let bottom = c * 0x80_0000;
            assert(c * s1 <= top && bottom <= c * s2) by (nonlinear_arith)
                requires
                    s1 <= 0x100_0000,
                    s2 >= 0x80_0000,
                    c >= 0,
                    top == c * 0x100_0000,
                    bottom == c * 0x80_0000,
            ;
            lemma_multiple_is_held(top);
            lemma_multiple_is_held(bottom);
            lemma_in_single_grows(c * s1, top);
            lemma_in_single_grows(bottom, c * s2);
            assert(v1 <= 2 * v2);
            lemma_cut_grows(v1, 2 * v2, e1);
            lemma_cut_doubles(v2, e1);
            lemma_cut_grows_with_scale(v2, e1 + 1, e2);
        }
        lemma_cut_is_whole(v1, e1);
        lemma_cut_is_whole(v2, e2);
        assert(cut(v1, e1) <= cut(v2, e2));
    }
}

fn scale_channel(c: u8, factor: u32) -> (r: u8)
    ensures
        r == channel_scaled(c, factor),
{
    if c == 0 || not_a_number(factor) || factor >= 0x8000_0000 || significand(factor) == 0 {
        0
    } else if exponent(factor) == 255 {
        255
    } else {
        let held: u32 = significand(factor);
        assert(0 <= c * held <= 255 * 0xFF_FFFF) by (nonlinear_arith)
            requires
                0 <= c <= 255,
                0 <= held <= 0xFF_FFFF,
        ;
        let product: u64 = (c as u64) * (held as u64);
        cut_at(to_single(product), scale(factor), 255) as u8
    }
}

impl View for Rgb {
    type V = (u8, u8, u8);

    closed spec fn view(&self) -> (u8, u8, u8) {
        (self.red, self.green, self.blue)
    }
}

impl Rgb {
    pub fn new(r: u8, g: u8, b: u8) -> (rgb: Rgb)
        ensures
            rgb@ == (r, g, b),
    {
        Rgb { red: r, green: g, blue: b }
    }

    /// The three channels: red, green, blue.
    pub fn as_bites(&self) -> (c: (u8, u8, u8))
        ensures
            c == self@,
    {
        (self.red, self.green, self.blue)
    }

    /// Channel-wise sum, each channel held at 255.
    pub fn add(self, v2: Rgb) -> (sum: Rgb)
        ensures
            sum@ == (
                channel_sum(self@.0, v2@.0),
                channel_sum(self@.1, v2@.1),
                channel_sum(self@.2, v2@.2),
            ),
    {
        Rgb {
            red: self.red.saturating_add(v2.red),
            green: self.green.saturating_add(v2.green),
            blue: self.blue.saturating_add(v2.blue),
        }
    }

    /// Every channel times the number with the pattern `rhs`, as single
    /// precision computes it, cut to a whole number and held at 255.
    pub fn mul(self, rhs: u32) -> (scaled: Rgb)
        ensures
            scaled@ == (
                channel_scaled(self@.0, rhs),
                channel_scaled(self@.1, rhs),
                channel_scaled(self@.2, rhs),
            ),
    {
        Rgb {
            red: scale_channel(self.red, rhs),
            green: scale_channel(self.green, rhs),
            blue: scale_channel(self.blue, rhs),
        }
    }

    /// Two colours with the same channels are the same colour.
    pub proof fn lemma_view_injective(a: Rgb, b: Rgb)
        requires
            a@ == b@,
        ensures
            a == b,
    {
    }
}

/// The product of two 32-bit numbers is below 2^64.
pub proof fn lemma_product_fits(a: int, b: int)
    requires
        0 <= a <= u32::MAX,
        0 <= b <= u32::MAX,
    ensures
        0 <= a * b <= 0xFFFF_FFFE_0000_0001,
{
    assert(0 <= a * b <= 0xFFFF_FFFF * 0xFFFF_FFFF) by (nonlinear_arith)
        requires
            0 <= a <= 0xFFFF_FFFF,
            0 <= b <= 0xFFFF_FFFF,
    ;
}

/// Where the first byte of the pixel in column `x` of row `y` lies in an image
/// of the given width.
pub open spec fn pixel_offset(x: int, y: int, width: int) -> int {
    (y * width + x) * 3
}

/// The bytes with the three channels of `color` stored from `offset` on.
pub open spec fn with_pixel(bytes: Seq<u8>, offset: int, color: (u8, u8, u8)) -> Seq<u8> {
    bytes.update(offset, color.0).update(offset + 1, color.1).update(offset + 2, color.2)
}

/// The three bytes stored from `offset` on.
pub open spec fn pixel_at(bytes: Seq<u8>, offset: int) -> (u8, u8, u8) {
    (bytes[offset], bytes[offset + 1], bytes[offset + 2])
}

/// Inside an image of `width` by `height` pixels every pixel lies inside the
/// first `3 * width * height` bytes, and two different pixels share no byte.
pub proof fn lemma_pixels_apart(width: int, height: int, x1: int, y1: int, x2: int, y2: int)
    requires
        0 <= x1 < width,
        0 <= y1 < height,
        0 <= x2 < width,
        0 <= y2 < height,
    ensures
        0 <= pixel_offset(x1, y1, width),
        pixel_offset(x1, y1, width) + 3 <= 3 * width * height,
        (x1 != x2 || y1 != y2) ==> pixel_offset(x1, y1, width) + 3 <= pixel_offset(x2, y2, width)
            || pixel_offset(x2, y2, width) + 3 <= pixel_offset(x1, y1, width),
{
    assert(0 <= y1 * width && (y1 * width + x1) + 1 <= width * height) by (nonlinear_arith)
        requires
            0 <= x1 < width,
            0 <= y1 < height,
    ;
    assert(3 * width * height == 3 * (width * height)) by (nonlinear_arith);
    if y1 < y2 {
        assert(y1 * width + width <= y2 * width) by (nonlinear_arith)
            requires
                y1 < y2,
                0 <= width,
        ;
    } else if y2 < y1 {
        assert(y2 * width + width <= y1 * width) by (nonlinear_arith)
            requires
                y2 < y1,
                0 <= width,
        ;
    }
}

/// An image as one flat array of bytes: row after row, three bytes for each
/// pixel, with no padding.
pub struct Buffer {
    data: Vec<u8>,
    width: u32,
    height: u32,
}

impl View for Buffer {
    type V = Seq<u8>;

    closed spec fn view(&self) -> Seq<u8> {
        self.data@
    }
}

impl Buffer {
    pub closed spec fn spec_width(&self) -> u32 {
        self.width
    }

    pub closed spec fn spec_height(&self) -> u32 {
        self.height
    }

    /// Where the first byte of the pixel in column `x` of row `y` lies.
    pub open spec fn offset(&self, x: int, y: int) -> int {
        pixel_offset(x, y, self.spec_width() as int)
    }

    /// The buffer has the three bytes of the pixel at `point`, at an offset that
    /// 32-bit arithmetic reaches.
    pub open spec fn has_pixel(&self, point: Point) -> bool {
        &&& self.offset(point.0 as int, point.1 as int) <= u32::MAX
        &&& self.offset(point.0 as int, point.1 as int) + 3 <= self@.len()
    }

    /// The buffer has room for every pixel of its width and height.
    pub open spec fn holds_image(&self) -> bool {
        &&& 3 * self.spec_width() * self.spec_height() <= u32::MAX
        &&& 3 * self.spec_width() * self.spec_height() <= self@.len()
    }

    /// The colour stored for column `x` of row `y`.
    pub open spec fn pixel(&self, x: int, y: int) -> (u8, u8, u8) {
        pixel_at(self@, self.offset(x, y))
    }

    /// In a buffer that holds its whole image, every position inside the image
    /// has its pixel.
    pub proof fn lemma_image_has_pixel(&self, p: Point)
        requires
            self.holds_image(),
            p.0 < self.spec_width(),
            p.1 < self.spec_height(),
        ensures
            self.has_pixel(p),
    {
        lemma_pixels_apart(
            self.spec_width() as int,
            self.spec_height() as int,
            p.0 as int,
            p.1 as int,
            p.0 as int,
            p.1 as int,
        );
    }

    /// Tells whether the buffer has the three bytes of the pixel at `point`.
    pub fn contains(&self, point: &Point) -> (held: bool)
        ensures
            held == self.has_pixel(*point),
    {
        proof {
            lemma_product_fits(point.1 as int, self.width as int);
        }
        let offset: u128 = ((point.1 as u128) * (self.width as u128) + (point.0 as u128)) * 3;
        offset <= 0xFFFF_FFFF && offset + 3 <= self.data.len() as u128
    }

    /// Tells whether the buffer has room for every pixel of its width and
    /// height.
    pub fn is_whole(&self) -> (whole: bool)
        ensures
            whole == self.holds_image(),
    {
        proof {
            lemma_product_fits(self.width as int, self.height as int);
            assert(3 * self.width * self.height == 3 * (self.width * self.height))
                by (nonlinear_arith);
        }
        let room: u128 = 3 * ((self.width as u128) * (self.height as u128));
        room <= 0xFFFF_FFFF && room <= self.data.len() as u128
    }

    /// A zeroed buffer of `depth` bytes for each pixel of the given size.
    pub fn new(dimensions: Dimensions, depth: u8) -> (buffer: Buffer)
        requires
            dimensions.0 * dimensions.1 * depth <= u32::MAX,
        ensures
            buffer.spec_width() == dimensions.0,
            buffer.spec_height() == dimensions.1,
            buffer@ == Seq::new((dimensions.0 * dimensions.1 * depth) as nat, |i: int| 0u8),
    {
        assert(dimensions.0 * dimensions.1 <= u32::MAX || depth == 0) by (nonlinear_arith)
            requires
                dimensions.0 * dimensions.1 * depth <= u32::MAX,
                0 <= dimensions.0,
                0 <= dimensions.1,
                0 <= depth,
        ;
        let size: usize = if depth == 0 {
            0
        } else {
            (dimensions.0 * dimensions.1 * (depth as u32)) as usize
        };
        assert(size == dimensions.0 * dimensions.1 * depth) by (nonlinear_arith)
            requires
                depth == 0 ==> size == 0,
                depth != 0 ==> size == dimensions.0 * dimensions.1 * depth,
        ;
        let mut data: Vec<u8> = Vec::with_capacity(size);
        let mut i: usize = 0;
        while i < size
            invariant
                i <= size,
                data@ == Seq::new(i as nat, |j: int| 0u8),
            decreases size - i,
        {
            data.push(0);
            i += 1;
            assert(data@ =~= Seq::new(i as nat, |j: int| 0u8));
        }
        Buffer { data, width: dimensions.0, height: dimensions.1 }
    }

    /// Sets every byte to zero.
    pub fn clear(&mut self)
        ensures
            final(self).spec_width() == old(self).spec_width(),
            final(self).spec_height() == old(self).spec_height(),
            final(self)@ == Seq::new(old(self)@.len(), |i: int| 0u8),
    {
        let n: usize = self.data.len();
        let mut i: usize = 0;
        while i < n
            invariant
                i <= n,
                n == self.data@.len(),
                n == old(self).data@.len(),
                self.width == old(self).width,
                self.height == old(self).height,
                forall|j: int| 0 <= j < i ==> self.data@[j] == 0u8,
            decreases n - i,
        {
            self.data[i] = 0;
            i += 1;
        }
        assert(self.data@ =~= Seq::new(old(self)@.len(), |i: int| 0u8));
    }

    /// Stores `rgb` as the pixel at `point`.
    pub fn set(&mut self, point: &Point, rgb: &Rgb)
        requires
            old(self).has_pixel(*point),
        ensures
            final(self).spec_width() == old(self).spec_width(),
            final(self).spec_height() == old(self).spec_height(),
            final(self)@ == with_pixel(
                old(self)@,
                old(self).offset(point.0 as int, point.1 as int),
                rgb@,
            ),
            final(self).pixel(point.0 as int, point.1 as int) == rgb@,
    {
        assert(point.1 * self.width <= (point.1 * self.width + point.0) * 3) by (nonlinear_arith)
            requires
                0 <= point.1,
                0 <= self.width,
                0 <= point.0,
        ;
        let held: usize = self.data.len();
        let first_byte: usize = ((point.1 * self.width + point.0) * 3) as usize;
        assert(first_byte + 2 < held);
        self.data[first_byte] = rgb.red;
        self.data[first_byte + 1] = rgb.green;
        self.data[first_byte + 2] = rgb.blue;
    }

    /// The colour stored for the pixel at `point`.
    pub fn get(&self, point: &Point) -> (rgb: Rgb)
        requires
            self.has_pixel(*point),
        ensures
            rgb@ == self.pixel(point.0 as int, point.1 as int),
    {
        assert(point.1 * self.width <= (point.1 * self.width + point.0) * 3) by (nonlinear_arith)
            requires
                0 <= point.1,
                0 <= self.width,
                0 <= point.0,
        ;
        let held: usize = self.data.len();
        let first_byte: usize = ((point.1 * self.width + point.0) * 3) as usize;
        assert(first_byte + 2 < held);
        Rgb::new(self.data[first_byte], self.data[first_byte + 1], self.data[first_byte + 2])
    }

    /// Stores one byte at a flat index.
    pub fn set_raw_value(&mut self, idx: usize, value: u8)
        requires
            idx < old(self)@.len(),
        ensures
            final(self).spec_width() == old(self).spec_width(),
            final(self).spec_height() == old(self).spec_height(),
            final(self)@ == old(self)@.update(idx as int, value),
    {
        self.data[idx] = value;
    }

    /// All bytes, in storage order.
    pub fn get_data_ref(&self) -> (bytes: &[u8])
        ensures
            bytes@ == self@,
    {
        self.data.as_slice()
    }

    pub fn width(&self) -> (w: &u32)
        ensures
            *w == self.spec_width(),
    {
        &self.width
    }

    pub fn height(&self) -> (h: &u32)
        ensures
            *h == self.spec_height(),
    {
        &self.height
    }
}

} // verus!
