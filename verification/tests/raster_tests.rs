use rico::pixel::{is_edge, is_near_white, Pixel};
use rico::raster::Image;

fn px(r: u8, g: u8, b: u8, a: u8) -> Pixel {
    Pixel { r, g, b, a }
}

#[test]
fn edge_predicate_checks_each_colour_channel() {
    let base = px(100, 100, 100, 255);
    assert!(is_edge(base, px(131, 100, 100, 0), 30));
    assert!(is_edge(base, px(100, 131, 100, 0), 30));
    assert!(is_edge(base, px(100, 100, 131, 0), 30));
    assert!(!is_edge(base, px(130, 130, 130, 0), 30));
    assert!(!is_edge(base, base, 0));
}

#[test]
fn edge_predicate_is_strict_and_symmetric() {
    // A difference equal to the threshold is no edge; one above it is.
    assert!(!is_edge(px(10, 0, 0, 0), px(40, 0, 0, 0), 30));
    assert!(is_edge(px(10, 0, 0, 0), px(41, 0, 0, 0), 30));
    assert!(is_edge(px(41, 0, 0, 0), px(10, 0, 0, 0), 30));
}

#[test]
fn edge_predicate_ignores_alpha() {
    assert!(!is_edge(px(5, 5, 5, 0), px(5, 5, 5, 255), 0));
}

#[test]
fn near_white_needs_every_channel_above_the_floor() {
    assert!(is_near_white(px(241, 241, 241, 0)));
    assert!(is_near_white(px(255, 255, 255, 255)));
    assert!(!is_near_white(px(240, 255, 255, 255)));
    assert!(!is_near_white(px(255, 240, 255, 255)));
    assert!(!is_near_white(px(255, 255, 240, 255)));
}

#[test]
fn new_builds_a_uniform_image() {
    let img = Image::new(3, 2, px(7, 8, 9, 10)).unwrap();
    assert_eq!(img.width, 3);
    assert_eq!(img.height, 2);
    assert_eq!(img.pixels.len(), 6);
    assert!(img.pixels.iter().all(|p| *p == px(7, 8, 9, 10)));
}

#[test]
fn get_and_put_pixel_round_trip() {
    let mut img = Image::new(3, 3, px(0, 0, 0, 0)).unwrap();
    img.put_pixel(2, 1, px(1, 2, 3, 4));
    assert_eq!(img.get_pixel(2, 1), px(1, 2, 3, 4));
    assert_eq!(img.get_pixel(1, 2), px(0, 0, 0, 0));
}

#[test]
fn from_raw_reads_rgba_quads_in_row_major_order() {
    let bytes: Vec<u8> = vec![
        1, 2, 3, 4, 5, 6, 7, 8, // first row
        9, 10, 11, 12, 13, 14, 15, 16, // second row
    ];
    let img = Image::from_raw(2, 2, &bytes).unwrap();
    assert_eq!(img.get_pixel(0, 0), px(1, 2, 3, 4));
    assert_eq!(img.get_pixel(1, 0), px(5, 6, 7, 8));
    assert_eq!(img.get_pixel(0, 1), px(9, 10, 11, 12));
    assert_eq!(img.get_pixel(1, 1), px(13, 14, 15, 16));
}

#[test]
fn from_raw_rejects_a_buffer_of_the_wrong_length() {
    assert!(Image::from_raw(2, 2, &[0u8; 15]).is_none());
    assert!(Image::from_raw(2, 2, &[0u8; 17]).is_none());
    assert!(Image::from_raw(0, 0, &[0u8; 4]).is_none());
}

#[test]
fn raw_round_trip_preserves_bytes() {
    let bytes: Vec<u8> = (0u8..48).collect();
    let img = Image::from_raw(4, 3, &bytes).unwrap();
    assert_eq!(img.to_raw(), bytes);
}
