use raytracer::buffer::{Buffer, Dimensions, Point, Rgb};
use raytracer::codec::{encode, EncodeError};

#[test]
fn encoded_image_is_a_png_file_of_the_same_pixels() {
    let mut image = Buffer::new(Dimensions(2, 2), 3);
    image.set(&Point(0, 0), &Rgb::new(1, 2, 3));
    image.set(&Point(1, 0), &Rgb::new(4, 5, 6));
    image.set(&Point(0, 1), &Rgb::new(7, 8, 9));
    image.set(&Point(1, 1), &Rgb::new(250, 251, 252));
    let file = encode(&image).unwrap();
    assert_eq!(&file[..8], &[137, 80, 78, 71, 13, 10, 26, 10][..]);

    let mut reader = png::Decoder::new(std::io::Cursor::new(&file[..])).read_info().unwrap();
    let mut samples = vec![0; reader.output_buffer_size().unwrap()];
    let info = reader.next_frame(&mut samples).unwrap();
    assert_eq!((info.width, info.height), (2, 2));
    assert_eq!(info.color_type, png::ColorType::Rgb);
    assert_eq!(info.bit_depth, png::BitDepth::Eight);
    assert_eq!(&samples[..], image.get_data_ref());
}

#[test]
fn encoding_is_the_same_each_time() {
    let mut image = Buffer::new(Dimensions(3, 1), 3);
    image.set(&Point(2, 0), &Rgb::new(9, 9, 9));
    assert_eq!(encode(&image), encode(&image));
}

#[test]
fn image_without_pixels_is_not_encoded() {
    assert_eq!(encode(&Buffer::new(Dimensions(0, 0), 3)), Err(EncodeError::Shape));
    assert_eq!(encode(&Buffer::new(Dimensions(0, 5), 3)), Err(EncodeError::Shape));
    assert_eq!(encode(&Buffer::new(Dimensions(5, 0), 3)), Err(EncodeError::Shape));
}

#[test]
fn image_of_another_depth_is_not_encoded() {
    assert_eq!(encode(&Buffer::new(Dimensions(2, 2), 4)), Err(EncodeError::Shape));
    assert_eq!(encode(&Buffer::new(Dimensions(2, 2), 1)), Err(EncodeError::Shape));
}
