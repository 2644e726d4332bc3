use raytracer::buffer::{Buffer, Dimensions, Point, Rgb};
use raytracer::frame::generate_frame;

#[test]
fn frame_holds_rows_then_columns_then_channels() {
    let mut buffer = Buffer::new(Dimensions(3, 2), 3);
    buffer.set(&Point(2, 0), &Rgb::new(1, 2, 3));
    buffer.set(&Point(0, 1), &Rgb::new(4, 5, 6));
    let frame = generate_frame(&buffer).cells;
    assert_eq!(frame.shape(), &[2, 3, 3]);
    assert_eq!((frame[[0, 2, 0]], frame[[0, 2, 1]], frame[[0, 2, 2]]), (1, 2, 3));
    assert_eq!((frame[[1, 0, 0]], frame[[1, 0, 1]], frame[[1, 0, 2]]), (4, 5, 6));
    assert_eq!((frame[[1, 2, 0]], frame[[1, 2, 1]], frame[[1, 2, 2]]), (0, 0, 0));
    let flat: Vec<u8> = frame.iter().cloned().collect();
    assert_eq!(&flat[..], buffer.get_data_ref());
}

#[test]
fn frame_of_no_pixels_is_empty() {
    let frame = generate_frame(&Buffer::new(Dimensions(0, 0), 3)).cells;
    assert_eq!(frame.len(), 0);
}
