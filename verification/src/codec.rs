//! PNG files in memory: decoding a file's bytes into a frame of samples, and
//! encoding an image buffer as a file's bytes.

use vstd::prelude::*;
use crate::buffer::Buffer;

verus! {

/// A decoded image: its size and its samples, row after row.
pub struct Frame {
    pub width: u32,
    pub height: u32,
    pub bytes: Vec<u8>,
}

/// Why an image could not be encoded.
#[derive(Clone, Copy, Debug, PartialEq, Eq, Structural)]
pub enum EncodeError {
    /// The image has no pixel, or the buffer is not three bytes for each pixel.
    Shape,
    /// The encoder failed on an image of the right shape.
    Rejected,
}

/// The decoder's error, `png::DecodingError`: carried, never looked into.
#[verifier::external_type_specification]
#[verifier::external_body]
pub struct ExDecodingError(png::DecodingError);

/// The encoder's error, `png::EncodingError`: carried, never looked into.
#[verifier::external_type_specification]
#[verifier::external_body]
pub struct ExEncodingError(png::EncodingError);

/// What the PNG decoder makes of a file's bytes: the width, the height and the
/// samples of the first frame, or nothing where it rejects the bytes.
pub uninterp spec fn png_frame(encoded: Seq<u8>) -> Option<(u32, u32, Seq<u8>)>;

/// The bytes of the PNG file that the encoder writes for an image of the given
/// size with 8-bit RGB samples, or nothing where it rejects them.
pub uninterp spec fn png_file(width: u32, height: u32, samples: Seq<u8>) -> Option<Seq<u8>>;

/// Decodes the first frame of a PNG file held in memory, with
/// `png::Decoder::new`, `read_info`, `output_buffer_size` and `next_frame`.
/// Nothing is claimed of the decoder but that the same bytes give the same
/// outcome, named `png_frame`.
#[verifier::external_body]
pub(crate) fn decode_png(encoded: &Vec<u8>) -> (decoded: Result<Frame, png::DecodingError>)
    ensures
        match decoded {
            Ok(frame) => png_frame(encoded@) == Some((frame.width, frame.height, frame.bytes@)),
            Err(_) => png_frame(encoded@).is_none(),
        },
{
    let decoder = png::Decoder::new(std::io::Cursor::new(encoded.as_slice()));
    let mut reader = decoder.read_info()?;
    let size = reader.output_buffer_size().ok_or(png::DecodingError::LimitsExceeded)?;
    let mut bytes = vec![0; size];
    reader.next_frame(&mut bytes)?;
    Ok(Frame { width: reader.info().width, height: reader.info().height, bytes })
}

/// Encodes 8-bit RGB samples as a PNG file in memory, with `png::Encoder::new`,
/// `set_color`, `set_depth`, `write_header`, `write_image_data` and `finish`.
/// Nothing is claimed of the encoder but that the same size and samples give
/// the same outcome, named `png_file`.
#[verifier::external_body]
fn encode_png(width: u32, height: u32, samples: &[u8]) -> (encoded: Result<
    Vec<u8>,
    png::EncodingError,
>)
    requires
        has_rgb_shape(width, height, samples@),
    ensures
        match encoded {
            Ok(file) => png_file(width, height, samples@) == Some(file@),
            Err(_) => png_file(width, height, samples@).is_none(),
        },
{
    let mut file = Vec::new();
    let mut encoder = png::Encoder::new(&mut file, width, height);
    encoder.set_color(png::ColorType::Rgb);
    encoder.set_depth(png::BitDepth::Eight);
    let mut writer = encoder.write_header()?;
    writer.write_image_data(samples)?;
    writer.finish()?;
    Ok(file)
}

/// The image has a pixel, and the samples are three bytes for each pixel.
pub open spec fn has_rgb_shape(width: u32, height: u32, samples: Seq<u8>) -> bool {
    width > 0 && height > 0 && samples.len() == 3 * width * height
}

/// What encoding an image of the given size and samples gives.
pub open spec fn encoded_image(width: u32, height: u32, samples: Seq<u8>) -> Result<
    Seq<u8>,
    EncodeError,
> {
    if !has_rgb_shape(width, height, samples) {
        Err(EncodeError::Shape)
    } else {
        match png_file(width, height, samples) {
            Some(file) => Ok(file),
            None => Err(EncodeError::Rejected),
        }
    }
}

/// The image as the bytes of a PNG file with 8-bit RGB samples.
pub fn encode(buffer: &Buffer) -> (encoded: Result<Vec<u8>, EncodeError>)
    ensures
        match encoded_image(buffer.spec_width(), buffer.spec_height(), buffer@) {
            Ok(file) => encoded matches Ok(bytes) && bytes@ == file,
            Err(fault) => encoded == Err::<Vec<u8>, EncodeError>(fault),
        },
{
    let width: u32 = *buffer.width();
    let height: u32 = *buffer.height();
    let samples = buffer.get_data_ref();
    assert(0 <= width * height <= 0xFFFF_FFFF * 0xFFFF_FFFF) by (nonlinear_arith)
        requires
            0 <= width <= 0xFFFF_FFFF,
            0 <= height <= 0xFFFF_FFFF,
    ;
    assert(3 * width * height == 3 * (width * height)) by (nonlinear_arith);
    let room: u128 = 3 * ((width as u128) * (height as u128));
    if width == 0 || height == 0 || samples.len() as u128 != room {
        return Err(EncodeError::Shape);
    }
    match encode_png(width, height, samples) {
        Ok(file) => Ok(file),
        Err(_) => Err(EncodeError::Rejected),
    }
}

} // verus!
