use raytracer::buffer::Rgb;
use raytracer::material::{
    Materials, ValueGenerator, CHECKER_BOARD_ROWS, EIGHT_TENTHS, FIFTY, GLASS_INDEX, HALF,
    NINE_TENTHS, SIX_TENTHS, TEN, TENTH, TWO_HUNDRED, TWO_TENTHS,
};
use raytracer::texture::ImageTexture;

fn at(numer: u32, denom: u32) -> u32 {
    (numer as f32 / denom as f32).to_bits()
}

fn tenths(n: u32) -> u32 {
    (n as f32 / 10.0).to_bits()
}

#[test]
fn checker_board_changes_colour_from_cell_to_cell() {
    let board = Materials::checker_board().diffuse_color;
    let first = board.get(Some((at(5, 100), at(5, 100))));
    let second = board.get(Some((at(15, 100), at(5, 100))));
    assert_eq!(first, Rgb::new(179, 118, 62));
    assert_eq!(second, Rgb::new(67, 45, 35));
    assert_ne!(first, second);
}

#[test]
fn checker_board_has_eight_rows() {
    assert_eq!(CHECKER_BOARD_ROWS, 8);
    let board = ValueGenerator::CheckerBoard(Rgb::new(1, 1, 1), Rgb::new(2, 2, 2));
    for cell in 0..8u32 {
        let x = at(2 * cell + 1, 16);
        let expected = if cell % 2 == 0 { Rgb::new(1, 1, 1) } else { Rgb::new(2, 2, 2) };
        assert_eq!(board.get(Some((x, at(0, 1)))), expected);
        assert_eq!(board.get(Some((at(0, 1), x))), expected);
        assert_eq!(board.get(Some((x, x))), Rgb::new(1, 1, 1));
    }
}

#[test]
fn checker_board_counts_the_edge_as_the_last_cell() {
    let board = ValueGenerator::CheckerBoard(Rgb::new(1, 1, 1), Rgb::new(2, 2, 2));
    assert_eq!(board.get(Some((at(1, 1), at(0, 1)))), Rgb::new(2, 2, 2));
    assert_eq!(board.get(Some((at(9, 2), at(0, 1)))), Rgb::new(2, 2, 2));
    assert_eq!(board.get(Some((f32::INFINITY.to_bits(), at(0, 1)))), Rgb::new(2, 2, 2));
    assert_eq!(board.get(Some((f32::NAN.to_bits(), at(0, 1)))), Rgb::new(2, 2, 2));
    assert_eq!(board.get(Some(((-0.5f32).to_bits(), at(0, 1)))), Rgb::new(1, 1, 1));
    assert_eq!(board.get(Some((0.99999994f32.to_bits(), at(0, 1)))), Rgb::new(2, 2, 2));
    assert_eq!(board.get(Some((0.12499999f32.to_bits(), at(0, 1)))), Rgb::new(1, 1, 1));
    assert_eq!(board.get(Some((at(1, 1), at(1, 1)))), Rgb::new(1, 1, 1));
    assert_eq!(board.get(Some((at(7, 8), at(0, 1)))), Rgb::new(2, 2, 2));
    assert_eq!(board.get(Some((at(6, 8), at(0, 1)))), Rgb::new(1, 1, 1));
}

#[test]
fn generators_without_coordinates_show_the_debugging_colour() {
    let pink = Rgb::new(200, 50, 200);
    let board = ValueGenerator::CheckerBoard(Rgb::new(1, 1, 1), Rgb::new(2, 2, 2));
    assert_eq!(board.get(None), pink);
    let texture = ImageTexture::from_frame(1, 1, &vec![5, 6, 7, 255]).unwrap();
    assert_eq!(ValueGenerator::ImageTexture(texture).get(None), pink);
}

#[test]
fn solid_colour_needs_no_coordinates() {
    let solid = ValueGenerator::SolidColor(Rgb::new(3, 4, 5));
    assert_eq!(solid.get(None), Rgb::new(3, 4, 5));
    assert_eq!(solid.get(Some((at(1, 2), at(1, 2)))), Rgb::new(3, 4, 5));
}

#[test]
fn image_generator_samples_its_texture() {
    let texture = ImageTexture::from_frame(2, 1, &vec![5, 6, 7, 255, 8, 9, 10, 255]).unwrap();
    let generator = ValueGenerator::ImageTexture(texture);
    assert_eq!(generator.get(Some((at(0, 1), at(0, 1)))), Rgb::new(5, 6, 7));
    assert_eq!(generator.get(Some((at(6, 10), at(0, 1)))), Rgb::new(8, 9, 10));
}

#[test]
fn materials_have_their_weights() {
    let glass = Materials::glass();
    assert_eq!(glass.shininess, 200.0f32.to_bits());
    assert_eq!(glass.albedo, (tenths(0), tenths(6), tenths(0), tenths(9)));
    assert_eq!(glass.refractive_index, tenths(18));
    assert_eq!(glass.diffuse_color.get(None), Rgb::new(10, 10, 10));

    let mirror = Materials::mirror();
    assert_eq!(mirror.shininess, 200.0f32.to_bits());
    assert_eq!(mirror.albedo, (tenths(2), tenths(6), tenths(8), tenths(0)));
    assert_eq!(mirror.refractive_index, tenths(0));
    assert_eq!(mirror.diffuse_color.get(None), Rgb::new(10, 10, 10));

    let green = Materials::glossy_green();
    assert_eq!(green.shininess, 50.0f32.to_bits());
    assert_eq!(green.albedo, (tenths(8), tenths(6), tenths(1), tenths(0)));
    assert_eq!(green.diffuse_color.get(None), Rgb::new(50, 250, 50));

    let blue = Materials::glossy_blue();
    assert_eq!(blue.shininess, 200.0f32.to_bits());
    assert_eq!(blue.albedo, (tenths(5), tenths(5), tenths(0), tenths(0)));
    assert_eq!(blue.diffuse_color.get(None), Rgb::new(50, 50, 170));

    let red = Materials::rubbery_red();
    assert_eq!(red.shininess, 10.0f32.to_bits());
    assert_eq!(red.albedo, (tenths(9), tenths(1), tenths(0), tenths(0)));
    assert_eq!(red.diffuse_color.get(None), Rgb::new(190, 30, 30));

    let solid = Materials::solid_color(Rgb::new(1, 2, 3));
    assert_eq!(solid.shininess, tenths(0));
    assert_eq!(solid.albedo, (tenths(5), tenths(5), tenths(0), tenths(0)));
    assert_eq!(solid.diffuse_color.get(None), Rgb::new(1, 2, 3));
}

#[test]
fn board_materials_have_their_colours() {
    let board = Materials::checker_board();
    assert_eq!(board.shininess, 50.0f32.to_bits());
    assert_eq!(board.albedo, (tenths(8), tenths(6), tenths(1), tenths(0)));
    let origin = Some((at(0, 1), at(0, 1)));
    let next = Some((at(1, 8), at(0, 1)));
    assert_eq!(board.diffuse_color.get(origin), Rgb::new(179, 118, 62));
    assert_eq!(board.diffuse_color.get(next), Rgb::new(67, 45, 35));

    let red = Materials::rubbery_red_checker_board();
    assert_eq!(red.shininess, 10.0f32.to_bits());
    assert_eq!(red.albedo, (tenths(9), tenths(1), tenths(0), tenths(0)));
    assert_eq!(red.diffuse_color.get(origin), Rgb::new(190, 30, 30));
    assert_eq!(red.diffuse_color.get(next), Rgb::new(230, 30, 30));
}

#[test]
fn sky_shows_its_image_alone() {
    let texture = ImageTexture::from_frame(1, 1, &vec![5, 6, 7, 255]).unwrap();
    let sky = Materials::skysphere(texture);
    assert_eq!(sky.albedo, (tenths(10), tenths(0), tenths(0), tenths(0)));
    assert_eq!(sky.shininess, tenths(0));
    assert_eq!(sky.diffuse_color.get(Some((at(1, 2), at(1, 2)))), Rgb::new(5, 6, 7));
}

#[test]
fn material_numbers_are_the_patterns_of_their_values() {
    assert_eq!(TENTH, 0.1f32.to_bits());
    assert_eq!(TWO_TENTHS, 0.2f32.to_bits());
    assert_eq!(HALF, 0.5f32.to_bits());
    assert_eq!(SIX_TENTHS, 0.6f32.to_bits());
    assert_eq!(EIGHT_TENTHS, 0.8f32.to_bits());
    assert_eq!(NINE_TENTHS, 0.9f32.to_bits());
    assert_eq!(GLASS_INDEX, 1.8f32.to_bits());
    assert_eq!(TEN, 10.0f32.to_bits());
    assert_eq!(FIFTY, 50.0f32.to_bits());
    assert_eq!(TWO_HUNDRED, 200.0f32.to_bits());
}

#[test]
fn checker_cell_is_that_of_single_precision() {
    let board = ValueGenerator::CheckerBoard(Rgb::new(1, 1, 1), Rgb::new(2, 2, 2));
    let mut bits: u32 = 0x3000_0000;
    while bits < 0x4000_0000 {
        let share = f32::from_bits(bits);
        let cell = (f32::min(1.0 - f32::EPSILON, share) * 8.0) as u8;
        let expected = if cell % 2 == 0 { Rgb::new(1, 1, 1) } else { Rgb::new(2, 2, 2) };
        assert_eq!(board.get(Some((bits, 0))), expected, "{}", share);
        bits += 0x0000_F123;
    }
}

#[test]
fn materials_tell_what_they_do_with_light() {
    assert!(Materials::mirror().reflects());
    assert!(!Materials::mirror().transmits());
    assert!(Materials::glass().transmits());
    assert!(!Materials::glass().reflects());
    assert!(Materials::checker_board().reflects());
    assert!(!Materials::rubbery_red().reflects());
}
