use raytracer::canvas::Canvas;
use raytracer::dimensions::Dimensions;

#[test]
fn dimensions_return_what_they_were_given() {
    let dims = Dimensions::new(640u32, 360u32);
    assert_eq!(dims.width(), 640);
    assert_eq!(dims.height(), 360);
}

#[test]
fn dimensions_hold_any_scalar() {
    let dims = Dimensions::new(3.5f64, 2.0f64);
    assert_eq!(dims.width(), 3.5);
    assert_eq!(dims.height(), 2.0);
}

#[test]
fn dimensions_are_copied() {
    let dims = Dimensions::new(7u32, 5u32);
    let copy = dims;
    let clone = dims.clone();
    assert_eq!(copy.width(), dims.width());
    assert_eq!(clone.height(), dims.height());
}

#[test]
fn new_canvas_is_filled() {
    let canvas = Canvas::new(4, 3, 7u8);
    assert_eq!(canvas.width(), 4);
    assert_eq!(canvas.height(), 3);
    assert_eq!(canvas.pixels(), &[7u8; 12][..]);
}

#[test]
fn canvas_is_at_least_one_row_high() {
    let canvas = Canvas::new(5, 0, 1u8);
    assert_eq!(canvas.width(), 5);
    assert_eq!(canvas.height(), 1);
    assert_eq!(canvas.pixels(), &[1u8; 5][..]);
}

#[test]
fn canvas_without_columns_is_empty() {
    let canvas = Canvas::new(0, 3, 1u8);
    assert_eq!(canvas.width(), 0);
    assert_eq!(canvas.height(), 3);
    assert!(canvas.pixels().is_empty());
}

#[test]
fn set_pixel_addresses_row_major() {
    let mut canvas = Canvas::new(4, 3, 0u8);
    canvas.set_pixel(1, 2, 9);
    let mut expected = [0u8; 12];
    expected[2 * 4 + 1] = 9;
    assert_eq!(canvas.pixels(), &expected[..]);
    assert_eq!(canvas.width(), 4);
    assert_eq!(canvas.height(), 3);
}

#[test]
fn set_pixel_reaches_every_corner() {
    let mut canvas = Canvas::new(3, 2, 0u8);
    canvas.set_pixel(0, 0, 1);
    canvas.set_pixel(2, 0, 2);
    canvas.set_pixel(0, 1, 3);
    canvas.set_pixel(2, 1, 4);
    assert_eq!(canvas.pixels(), &[1, 0, 2, 3, 0, 4][..]);
}

#[test]
fn set_pixel_past_the_last_row_changes_nothing() {
    let mut canvas = Canvas::new(4, 3, 0u8);
    canvas.set_pixel(0, 3, 9);
    canvas.set_pixel(3, 4_000_000_000, 9);
    canvas.set_pixel(u32::MAX, u32::MAX, 9);
    assert_eq!(canvas.pixels(), &[0u8; 12][..]);
}

#[test]
fn set_pixel_goes_by_position() {
    // Column 5 of row 0 in a grid four wide is position 5: column 1 of row 1.
    let mut canvas = Canvas::new(4, 3, 0u8);
    canvas.set_pixel(5, 0, 9);
    let mut expected = [0u8; 12];
    expected[5] = 9;
    assert_eq!(canvas.pixels(), &expected[..]);
}

#[test]
fn from_pixels_takes_a_full_buffer() {
    let canvas = Canvas::from_pixels(3, 2, vec![1u8, 2, 3, 4, 5, 6]).unwrap();
    assert_eq!(canvas.width(), 3);
    assert_eq!(canvas.height(), 2);
    assert_eq!(canvas.pixels(), &[1, 2, 3, 4, 5, 6][..]);
}

#[test]
fn from_pixels_refuses_another_length() {
    assert!(Canvas::from_pixels(3, 2, vec![1u8, 2, 3, 4, 5]).is_none());
    assert!(Canvas::from_pixels(3, 2, vec![1u8, 2, 3, 4, 5, 6, 7]).is_none());
    assert!(Canvas::from_pixels(0, 2, vec![1u8]).is_none());
    assert!(Canvas::from_pixels(u32::MAX, u32::MAX, vec![1u8]).is_none());
}

#[test]
fn from_pixels_wants_a_row() {
    assert!(Canvas::from_pixels(3, 0, Vec::<u8>::new()).is_none());
    assert!(Canvas::from_pixels(0, 0, Vec::<u8>::new()).is_none());
    let no_columns = Canvas::from_pixels(0, 7, Vec::<u8>::new()).unwrap();
    assert_eq!(no_columns.width(), 0);
    assert_eq!(no_columns.height(), 7);
}

#[test]
fn canvas_holds_linear_colours() {
    let mut canvas = Canvas::new(2, 2, [0.0f64; 3]);
    canvas.set_pixel(1, 0, [0.25, 0.5, 1.0]);
    assert_eq!(canvas.pixels()[1], [0.25, 0.5, 1.0]);
    assert_eq!(canvas.pixels()[0], [0.0, 0.0, 0.0]);
}
