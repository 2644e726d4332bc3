use raytracer::buffer::{Buffer, Dimensions, Point, Rgb};
use raytracer::codec::encode;
use raytracer::texture::{ImageTexture, TextureError};

fn at(numer: u32, denom: u32) -> u32 {
    (numer as f32 / denom as f32).to_bits()
}

fn rgba_png(width: u32, height: u32, samples: &[u8]) -> Vec<u8> {
    let mut file = Vec::new();
    {
        let mut encoder = png::Encoder::new(&mut file, width, height);
        encoder.set_color(png::ColorType::Rgba);
        encoder.set_depth(png::BitDepth::Eight);
        let mut writer = encoder.write_header().unwrap();
        writer.write_image_data(samples).unwrap();
    }
    file
}

#[test]
fn frame_loses_every_fourth_byte() {
    let frame = vec![1, 2, 3, 255, 4, 5, 6, 254];
    let texture = ImageTexture::from_frame(2, 1, &frame).unwrap();
    assert_eq!(texture.get(Some((at(0, 1), at(0, 1)))), Rgb::new(1, 2, 3));
    assert_eq!(texture.get(Some((at(1, 1), at(0, 1)))), Rgb::new(4, 5, 6));
}

#[test]
fn short_frame_is_filled_with_zeros() {
    let frame = vec![9, 8, 7, 6, 5];
    let texture = ImageTexture::from_frame(2, 1, &frame).unwrap();
    assert_eq!(texture.get(Some((at(0, 1), at(0, 1)))), Rgb::new(9, 8, 7));
    assert_eq!(texture.get(Some((at(1, 1), at(0, 1)))), Rgb::new(5, 0, 0));
}

#[test]
fn frame_without_pixels_is_refused() {
    assert_eq!(ImageTexture::from_frame(0, 4, &vec![]).err(), Some(TextureError::Empty));
    assert_eq!(ImageTexture::from_frame(4, 0, &vec![1, 2, 3]).err(), Some(TextureError::Empty));
}

#[test]
fn frame_beyond_32_bits_is_refused() {
    assert_eq!(
        ImageTexture::from_frame(65536, 65536, &vec![]).err(),
        Some(TextureError::TooLarge)
    );
    assert_eq!(
        ImageTexture::from_frame(1431655766, 1, &vec![]).err(),
        Some(TextureError::TooLarge)
    );
}

#[test]
fn frame_with_too_many_bytes_is_refused() {
    assert_eq!(
        ImageTexture::from_frame(1, 1, &vec![1, 2, 3, 4, 5]).err(),
        Some(TextureError::Overfull)
    );
    assert!(ImageTexture::from_frame(1, 1, &vec![1, 2, 3, 4]).is_ok());
}

#[test]
fn texture_gives_the_nearest_pixel() {
    let frame = vec![10, 0, 0, 255, 20, 0, 0, 255, 30, 0, 0, 255];
    let texture = ImageTexture::from_frame(3, 1, &frame).unwrap();
    // a quarter of the way over three pixels is half a pixel: halves go up
    assert_eq!(texture.get(Some((at(1, 4), at(0, 1)))), Rgb::new(20, 0, 0));
    assert_eq!(texture.get(Some((at(24, 100), at(0, 1)))), Rgb::new(10, 0, 0));
    assert_eq!(texture.get(Some((at(74, 100), at(0, 1)))), Rgb::new(20, 0, 0));
    assert_eq!(texture.get(Some((at(3, 4), at(0, 1)))), Rgb::new(30, 0, 0));
    assert_eq!(texture.get(Some((at(1, 1), at(1, 1)))), Rgb::new(30, 0, 0));
}

#[test]
fn texture_holds_coordinates_inside_the_image() {
    let frame = vec![10, 0, 0, 255, 20, 0, 0, 255, 30, 1, 0, 255, 40, 1, 0, 255];
    let texture = ImageTexture::from_frame(2, 2, &frame).unwrap();
    let bits = |value: f32| value.to_bits();
    assert_eq!(texture.get(Some((bits(3.5), bits(9.0)))), Rgb::new(40, 1, 0));
    assert_eq!(texture.get(Some((bits(f32::MAX), bits(0.0)))), Rgb::new(20, 0, 0));
    assert_eq!(texture.get(Some((bits(f32::INFINITY), bits(f32::INFINITY)))), Rgb::new(40, 1, 0));
    assert_eq!(texture.get(Some((bits(f32::NAN), bits(f32::NAN)))), Rgb::new(10, 0, 0));
    assert_eq!(texture.get(Some((bits(-0.75), bits(-3.0)))), Rgb::new(10, 0, 0));
    assert_eq!(texture.get(Some((bits(-0.0), bits(1.0)))), Rgb::new(30, 1, 0));
}

#[test]
fn texture_rounds_the_exact_share() {
    let mut frame = Vec::new();
    for column in 0..6u8 {
        frame.extend_from_slice(&[column, 0, 0, 255]);
    }
    let texture = ImageTexture::from_frame(6, 1, &frame).unwrap();
    let bits = |value: f32| value.to_bits();
    // 0.1 in single precision is a little more than a tenth: times 5 it is
    // a little more than a half
    assert_eq!(texture.get(Some((bits(0.1), bits(0.0)))), Rgb::new(1, 0, 0));
    assert_eq!(texture.get(Some((bits(0.09999999), bits(0.0)))), Rgb::new(0, 0, 0));
    assert_eq!(texture.get(Some((bits(0.3), bits(0.0)))), Rgb::new(2, 0, 0));
    assert_eq!(texture.get(Some((bits(0.29999998), bits(0.0)))), Rgb::new(1, 0, 0));
    assert_eq!(texture.get(Some((bits(1.0e-30), bits(0.0)))), Rgb::new(0, 0, 0));
    assert_eq!(texture.get(Some((bits(0.9), bits(0.0)))), Rgb::new(4, 0, 0));
    assert_eq!(texture.get(Some((bits(0.90000004), bits(0.0)))), Rgb::new(5, 0, 0));
}

#[test]
fn texture_lookup_agrees_with_exact_arithmetic() {
    for width in [1u32, 2, 3, 6, 7, 100, 255] {
        let mut frame = Vec::new();
        for column in 0..width {
            frame.extend_from_slice(&[column as u8, 0, 0, 255]);
        }
        let texture = ImageTexture::from_frame(width, 1, &frame).unwrap();
        let mut bits: u32 = 0x3000_0000;
        while bits < 0x4000_0000 {
            let share = f32::from_bits(bits);
            // the product of two such numbers is exact in double precision
            let expected = ((share as f64 * (width - 1) as f64).round() as u32).min(width - 1);
            let found = texture.get(Some((bits, 0)));
            assert_eq!(found, Rgb::new(expected as u8, 0, 0), "{} of {}", share, width);
            bits += 0x0001_F123;
        }
    }
}

#[test]
fn texture_loads_a_png_file_with_alpha() {
    let samples = [1, 2, 3, 255, 4, 5, 6, 128, 7, 8, 9, 0, 10, 11, 12, 255];
    let file = rgba_png(2, 2, &samples);
    let texture = ImageTexture::load(&file).unwrap();
    assert_eq!(texture.get(Some((at(0, 1), at(0, 1)))), Rgb::new(1, 2, 3));
    assert_eq!(texture.get(Some((at(1, 1), at(0, 1)))), Rgb::new(4, 5, 6));
    assert_eq!(texture.get(Some((at(0, 1), at(1, 1)))), Rgb::new(7, 8, 9));
    assert_eq!(texture.get(Some((at(1, 1), at(1, 1)))), Rgb::new(10, 11, 12));
}

#[test]
fn texture_drops_every_fourth_byte_of_a_file_without_alpha() {
    let mut image = Buffer::new(Dimensions(2, 1), 3);
    image.set(&Point(0, 0), &Rgb::new(1, 2, 3));
    image.set(&Point(1, 0), &Rgb::new(4, 5, 6));
    let file = encode(&image).unwrap();
    let texture = ImageTexture::load(&file).unwrap();
    assert_eq!(texture.get(Some((at(0, 1), at(0, 1)))), Rgb::new(1, 2, 3));
    assert_eq!(texture.get(Some((at(1, 1), at(0, 1)))), Rgb::new(5, 6, 0));
}

#[test]
fn texture_refuses_what_is_no_png_file() {
    assert_eq!(ImageTexture::load(&vec![]).err(), Some(TextureError::Decoding));
    assert_eq!(ImageTexture::load(&vec![1, 2, 3, 4]).err(), Some(TextureError::Decoding));
    let mut cut = rgba_png(1, 1, &[1, 2, 3, 4]);
    cut.truncate(20);
    assert_eq!(ImageTexture::load(&cut).err(), Some(TextureError::Decoding));
}

#[test]
fn texture_refuses_a_png_file_of_deep_samples() {
    let mut file = Vec::new();
    {
        let mut encoder = png::Encoder::new(&mut file, 1, 1);
        encoder.set_color(png::ColorType::Rgba);
        encoder.set_depth(png::BitDepth::Sixteen);
        let mut writer = encoder.write_header().unwrap();
        writer.write_image_data(&[0, 1, 0, 2, 0, 3, 0, 4]).unwrap();
    }
    assert_eq!(ImageTexture::load(&file).err(), Some(TextureError::Overfull));
}

#[test]
fn texture_without_coordinates_shows_the_debugging_colour() {
    let texture = ImageTexture::from_frame(1, 1, &vec![5, 6, 7, 255]).unwrap();
    assert_eq!(texture.get(None), Rgb::new(200, 50, 200));
    assert_eq!(texture.get(None), raytracer::common::debug_pink());
}
