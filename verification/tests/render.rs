use raytracer::buffer::{Buffer, Dimensions, Point, Rgb};
use raytracer::render::{background, draw, is_complete, pixels};

#[test]
fn background_is_a_gradient() {
    let mut buffer = Buffer::new(Dimensions(4, 2), 3);
    background(&mut buffer);
    assert_eq!(buffer.get(&Point(0, 0)), Rgb::new(0, 0, 0));
    assert_eq!(buffer.get(&Point(1, 0)), Rgb::new(64, 0, 0));
    assert_eq!(buffer.get(&Point(3, 0)), Rgb::new(192, 0, 0));
    assert_eq!(buffer.get(&Point(0, 1)), Rgb::new(0, 0, 128));
    assert_eq!(buffer.get(&Point(3, 1)), Rgb::new(192, 0, 128));
}

#[test]
fn background_rounds_down() {
    let mut buffer = Buffer::new(Dimensions(3, 3), 3);
    background(&mut buffer);
    assert_eq!(buffer.get(&Point(1, 2)), Rgb::new(85, 0, 170));
    assert_eq!(buffer.get(&Point(2, 1)), Rgb::new(170, 0, 85));
}

#[test]
fn background_leaves_further_bytes_alone() {
    let mut buffer = Buffer::new(Dimensions(2, 1), 4);
    buffer.set_raw_value(6, 77);
    buffer.set_raw_value(7, 78);
    background(&mut buffer);
    assert_eq!(buffer.get_data_ref(), &[0, 0, 0, 128, 0, 0, 77, 78][..]);
}

#[test]
fn pixels_go_column_by_column() {
    let all: Vec<(u32, u32)> = pixels(2, 3).iter().map(|point| (point.0, point.1)).collect();
    assert_eq!(all, vec![(0, 0), (0, 1), (0, 2), (1, 0), (1, 1), (1, 2)]);
    assert!(pixels(0, 3).is_empty());
    assert!(pixels(3, 0).is_empty());
}

#[test]
fn drawing_stores_every_rendered_pixel() {
    let mut buffer = Buffer::new(Dimensions(2, 2), 3);
    let rendered = vec![(1, 0, Rgb::new(1, 2, 3)), (0, 1, Rgb::new(4, 5, 6))];
    draw(&mut buffer, &rendered);
    assert_eq!(buffer.get_data_ref(), &[0, 0, 0, 1, 2, 3, 4, 5, 6, 0, 0, 0][..]);
}

#[test]
fn drawing_does_not_depend_on_the_order_of_arrival() {
    let rendered = vec![
        (0, 0, Rgb::new(1, 1, 1)),
        (1, 0, Rgb::new(2, 2, 2)),
        (0, 1, Rgb::new(3, 3, 3)),
        (1, 1, Rgb::new(4, 4, 4)),
    ];
    let mut in_order = Buffer::new(Dimensions(2, 2), 3);
    draw(&mut in_order, &rendered);
    let turned: Vec<(u32, u32, Rgb)> = rendered.iter().rev().cloned().collect();
    let mut backwards = Buffer::new(Dimensions(2, 2), 3);
    draw(&mut backwards, &turned);
    assert_eq!(in_order.get_data_ref(), backwards.get_data_ref());
    assert_eq!(in_order.get_data_ref(), &[1, 1, 1, 2, 2, 2, 3, 3, 3, 4, 4, 4][..]);
}

#[test]
fn drawing_keeps_the_last_colour_of_a_pixel() {
    let mut buffer = Buffer::new(Dimensions(1, 1), 3);
    draw(&mut buffer, &vec![(0, 0, Rgb::new(1, 1, 1)), (0, 0, Rgb::new(2, 2, 2))]);
    assert_eq!(buffer.get(&Point(0, 0)), Rgb::new(2, 2, 2));
}

#[test]
fn buffer_tells_what_it_holds() {
    let buffer = Buffer::new(Dimensions(2, 2), 3);
    assert!(buffer.is_whole());
    assert!(buffer.contains(&Point(1, 1)));
    assert!(!buffer.contains(&Point(0, 2)));
    assert!(buffer.contains(&Point(3, 0)));
    assert!(!buffer.contains(&Point(4, 0)));
    let thin = Buffer::new(Dimensions(2, 2), 2);
    assert!(!thin.is_whole());
    assert!(thin.contains(&Point(1, 0)));
    assert!(!thin.contains(&Point(1, 1)));
}

#[test]
fn rendering_is_complete_when_every_pixel_came_once() {
    let color = Rgb::new(1, 2, 3);
    let all = vec![(1, 0, color), (0, 1, color), (0, 0, color), (1, 1, color)];
    assert!(is_complete(&all, 2, 2));
    assert!(is_complete(&vec![], 0, 5));
    assert!(is_complete(&vec![], 5, 0));
    let by_tasks: Vec<(u32, u32, Rgb)> =
        pixels(3, 4).iter().map(|point| (point.0, point.1, color)).collect();
    assert!(is_complete(&by_tasks, 3, 4));
    assert!(!is_complete(&by_tasks, 4, 3));
}

#[test]
fn rendering_is_not_complete_with_a_pixel_missing_twice_or_outside() {
    let color = Rgb::new(1, 2, 3);
    assert!(!is_complete(&vec![(1, 0, color), (0, 1, color), (0, 0, color)], 2, 2));
    assert!(!is_complete(&vec![], 1, 1));
    let twice = vec![(1, 0, color), (0, 1, color), (0, 0, color), (1, 1, color), (1, 0, color)];
    assert!(!is_complete(&twice, 2, 2));
    let other = vec![(1, 0, color), (0, 1, color), (0, 0, color), (1, 1, Rgb::new(9, 9, 9)), (1, 1, color)];
    assert!(!is_complete(&other, 2, 2));
    let outside = vec![(1, 0, color), (0, 1, color), (0, 0, color), (1, 1, color), (2, 0, color)];
    assert!(!is_complete(&outside, 2, 2));
    let shifted = vec![(1, 0, color), (0, 1, color), (0, 0, color), (0, 2, color)];
    assert!(!is_complete(&shifted, 2, 2));
}
