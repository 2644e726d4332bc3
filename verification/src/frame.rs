//! Video frames: an image as a three-dimensional array of rows, columns and
//! channels.

use vstd::prelude::*;
use crate::buffer::{Buffer, Point};

verus! {

/// One picture of a video: an `ndarray::Array3<u8>` of bytes by row, column
/// and channel. The verifier sees nothing inside it: its shape and its cells
/// are what `frame_shape` and `frame_cells` name, and only `zeroed_frame` and
/// `put` say anything of them.
#[verifier::external_body]
pub struct VideoFrame {
    pub cells: ndarray::Array3<u8>,
}

/// The numbers of rows, columns and channels of a frame: the lengths of the
/// three axes of its array.
pub uninterp spec fn frame_shape(frame: VideoFrame) -> (nat, nat, nat);

/// The cells of a frame, by row, column and channel: what the array holds at
/// each index inside its shape.
pub uninterp spec fn frame_cells(frame: VideoFrame) -> Map<(int, int, int), u8>;

/// The cell lies inside a frame of the given shape.
pub open spec fn in_shape(shape: (nat, nat, nat), row: int, column: int, channel: int) -> bool {
    0 <= row < shape.0 && 0 <= column < shape.1 && 0 <= channel < shape.2
}

/// An array of so many rows and columns and three channels can be made: the
/// product of those of the three numbers that are not zero fits a signed
/// machine word.
pub open spec fn fits_frame(rows: int, columns: int) -> bool {
    (if rows == 0 {
        1
    } else {
        rows
    }) * (if columns == 0 {
        1
    } else {
        columns
    }) * 3 <= isize::MAX
}

/// Makes a frame of the given numbers of rows and columns and three channels
/// with `ndarray::Array3::zeros`: every cell is zero. The outside function
/// panics where the product of the lengths that are not zero is beyond a signed
/// machine word.
#[verifier::external_body]
fn zeroed_frame(rows: usize, columns: usize) -> (frame: VideoFrame)
    requires
        fits_frame(rows as int, columns as int),
    ensures
        frame_shape(frame) == (rows as nat, columns as nat, 3nat),
        forall|row: int, column: int, channel: int|
            in_shape(frame_shape(frame), row, column, channel) ==> #[trigger] frame_cells(frame)[(
                row,
                column,
                channel,
            )] == 0u8,
{
    VideoFrame { cells: ndarray::Array3::zeros((rows, columns, 3)) }
}

/// Stores a value in one cell with the index operator of `ndarray::ArrayBase`:
/// the shape and every other cell stay as they are.
#[verifier::external_body]
fn put(frame: &mut VideoFrame, row: usize, column: usize, channel: usize, value: u8)
    requires
        in_shape(frame_shape(*old(frame)), row as int, column as int, channel as int),
    ensures
        frame_shape(*final(frame)) == frame_shape(*old(frame)),
        frame_cells(*final(frame)) == frame_cells(*old(frame)).insert(
            (row as int, column as int, channel as int),
            value,
        ),
{
    frame.cells[[row, column, channel]] = value;
}

/// The frame shows the image of the buffer: one row of the frame for each row
/// of pixels, and in it three channels for each pixel.
pub open spec fn shows(frame: VideoFrame, buffer: &Buffer) -> bool {
    &&& frame_shape(frame) == (buffer.spec_height() as nat, buffer.spec_width() as nat, 3nat)
    &&& forall|x: int, y: int|
        0 <= x < buffer.spec_width() && 0 <= y < buffer.spec_height() ==> shows_pixel(
            frame,
            x,
            y,
            #[trigger] buffer.pixel(x, y),
        )
}

/// The three channels of the frame at column `x` of row `y` are those of
/// `color`.
pub open spec fn shows_pixel(frame: VideoFrame, x: int, y: int, color: (u8, u8, u8)) -> bool {
    &&& frame_cells(frame)[(y, x, 0)] == color.0
    &&& frame_cells(frame)[(y, x, 1)] == color.1
    &&& frame_cells(frame)[(y, x, 2)] == color.2
}

/// Copies the image of the buffer into a new video frame.
pub fn generate_frame(buffer: &Buffer) -> (frame: VideoFrame)
    requires
        buffer.holds_image(),
        fits_frame(buffer.spec_height() as int, buffer.spec_width() as int),
    ensures
        shows(frame, buffer),
{
    let width: u32 = *buffer.width();
    let height: u32 = *buffer.height();
    let mut frame = zeroed_frame(height as usize, width as usize);
    let mut x: u32 = 0;
    while x < width
        invariant
            x <= width,
            width == buffer.spec_width(),
            height == buffer.spec_height(),
            buffer.holds_image(),
            frame_shape(frame) == (height as nat, width as nat, 3nat),
            forall|a: int, b: int|
                0 <= a < x && 0 <= b < height ==> shows_pixel(
                    frame,
                    a,
                    b,
                    #[trigger] buffer.pixel(a, b),
                ),
        decreases width - x,
    {
        let mut y: u32 = 0;
        while y < height
            invariant
                x < width,
                y <= height,
                width == buffer.spec_width(),
                height == buffer.spec_height(),
                buffer.holds_image(),
                frame_shape(frame) == (height as nat, width as nat, 3nat),
                forall|a: int, b: int|
                    0 <= a < x && 0 <= b < height ==> shows_pixel(
                        frame,
                        a,
                        b,
                        #[trigger] buffer.pixel(a, b),
                    ),
                forall|b: int|
                    0 <= b < y ==> shows_pixel(
                        frame,
                        x as int,
                        b,
                        #[trigger] buffer.pixel(x as int, b),
                    ),
            decreases height - y,
        {
            proof {
                buffer.lemma_image_has_pixel(Point(x, y));
            }
            let rgb = buffer.get(&Point(x, y)).as_bites();
            put(&mut frame, y as usize, x as usize, 0, rgb.0);
            put(&mut frame, y as usize, x as usize, 1, rgb.1);
            put(&mut frame, y as usize, x as usize, 2, rgb.2);
            y += 1;
        }
        x += 1;
    }
    frame
}

} // verus!
