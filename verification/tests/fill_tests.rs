use rico::fill::{remove_background, try_remove_background, DEFAULT_EDGE_THRESHOLD};
use rico::pixel::Pixel;
use rico::raster::Image;

fn px(r: u8, g: u8, b: u8, a: u8) -> Pixel {
    Pixel { r, g, b, a }
}

fn uniform(width: usize, height: usize, p: Pixel) -> Image {
    Image { width, height, pixels: vec![p; width * height] }
}

fn at(img: &Image, x: usize, y: usize) -> Pixel {
    img.pixels[y * img.width + x]
}

const WHITE: Pixel = Pixel { r: 255, g: 255, b: 255, a: 255 };
const BLACK: Pixel = Pixel { r: 0, g: 0, b: 0, a: 255 };
const GRAY: Pixel = Pixel { r: 128, g: 128, b: 128, a: 255 };

#[test]
fn uniform_white_threshold_zero_all_transparent() {
    let img = uniform(3, 3, WHITE);
    let out = remove_background(&img, 0);
    assert_eq!(out.width, 3);
    assert_eq!(out.height, 3);
    for y in 0..3 {
        for x in 0..3 {
            assert_eq!(at(&out, x, y), px(255, 255, 255, 0));
        }
    }
}

#[test]
fn solid_gray_unchanged_for_any_threshold() {
    for t in [0u8, 30, 128, 255] {
        let img = uniform(4, 3, GRAY);
        let out = remove_background(&img, t);
        assert_eq!(out.pixels, img.pixels);
        assert_eq!(out.width, img.width);
        assert_eq!(out.height, img.height);
    }
}

#[test]
fn fill_twice_yields_identical_output() {
    let mut img = uniform(4, 4, WHITE);
    img.pixels[1 * 4 + 2] = BLACK;
    img.pixels[2 * 4 + 1] = px(250, 250, 250, 255);
    let out1 = remove_background(&img, DEFAULT_EDGE_THRESHOLD);
    let out2 = remove_background(&img, DEFAULT_EDGE_THRESHOLD);
    assert_eq!(out1.pixels, out2.pixels);
    assert_eq!(out1.width, out2.width);
    assert_eq!(out1.height, out2.height);
}

#[test]
fn fill_is_idempotent() {
    let mut img = uniform(5, 4, WHITE);
    img.pixels[2 * 5 + 2] = BLACK;
    let out1 = remove_background(&img, 10);
    let out2 = remove_background(&out1, 10);
    assert_eq!(out2.pixels, out1.pixels);
}

#[test]
fn edge_containment_five_by_five() {
    // All white, one pure black pixel in the middle, threshold 10: the fill
    // removes every white pixel up to the black pixel's immediate
    // neighbours; the black pixel and the white pixels adjacent to it stay
    // opaque.
    let mut img = uniform(5, 5, WHITE);
    img.pixels[2 * 5 + 2] = BLACK;
    let out = remove_background(&img, 10);
    for y in 0..5usize {
        for x in 0..5usize {
            let next_to_black = (x == 2 && y == 1) || (x == 2 && y == 3) || (x == 1 && y == 2)
                || (x == 3 && y == 2);
            if x == 2 && y == 2 {
                assert_eq!(at(&out, x, y), BLACK);
            } else if next_to_black {
                assert_eq!(at(&out, x, y), WHITE);
            } else {
                assert_eq!(at(&out, x, y), px(255, 255, 255, 0));
            }
        }
    }
}

#[test]
fn enclosed_white_is_not_removed() {
    // A white centre sealed in by a black ring: nothing is near-white on the
    // border and the centre's every neighbour is an edge, so the output is
    // the input.
    let mut img = uniform(3, 3, BLACK);
    img.pixels[1 * 3 + 1] = WHITE;
    let out = remove_background(&img, 10);
    assert_eq!(out.pixels, img.pixels);
}

#[test]
fn candidate_next_to_edge_is_retained() {
    // Three pixels in a row: white, white, dark. The middle white pixel
    // sees a contrast edge toward the dark pixel and is retained; the left
    // white pixel sees no edge and is removed.
    let img = Image { width: 3, height: 1, pixels: vec![WHITE, WHITE, px(100, 100, 100, 255)] };
    let out = remove_background(&img, 30);
    assert_eq!(at(&out, 0, 0), px(255, 255, 255, 0));
    assert_eq!(at(&out, 1, 0), WHITE);
    assert_eq!(at(&out, 2, 0), px(100, 100, 100, 255));
}

#[test]
fn threshold_zero_treats_any_difference_as_edge() {
    // 255-white beside 250-white: at threshold 0 the five-step contrast is
    // an edge and both pixels are kept; at threshold 10 it is not and both
    // are removed.
    let img = Image { width: 2, height: 1, pixels: vec![WHITE, px(250, 250, 250, 255)] };
    let strict = remove_background(&img, 0);
    assert_eq!(strict.pixels, img.pixels);
    let loose = remove_background(&img, 10);
    assert_eq!(at(&loose, 0, 0), px(255, 255, 255, 0));
    assert_eq!(at(&loose, 1, 0), px(250, 250, 250, 0));
}

#[test]
fn near_white_floor_is_strict() {
    // 241 on every channel is above the floor, 240 is not.
    let above = uniform(1, 1, px(241, 241, 241, 255));
    let out = remove_background(&above, 30);
    assert_eq!(at(&out, 0, 0), px(241, 241, 241, 0));
    let at_floor = uniform(1, 1, px(240, 240, 240, 255));
    let out = remove_background(&at_floor, 30);
    assert_eq!(out.pixels, at_floor.pixels);
}

#[test]
fn alpha_plays_no_part_in_classification() {
    // An already-transparent near-white pixel is still classified by colour.
    let img = uniform(1, 1, px(255, 255, 255, 0));
    let out = remove_background(&img, 0);
    assert_eq!(at(&out, 0, 0), px(255, 255, 255, 0));
}

#[test]
fn degenerate_one_by_one() {
    let img = uniform(1, 1, WHITE);
    let out = remove_background(&img, 0);
    assert_eq!(at(&out, 0, 0), px(255, 255, 255, 0));
    let gray = uniform(1, 1, GRAY);
    let out = remove_background(&gray, 0);
    assert_eq!(out.pixels, gray.pixels);
}

#[test]
fn degenerate_single_row() {
    let img = uniform(5, 1, WHITE);
    let out = remove_background(&img, 0);
    for x in 0..5 {
        assert_eq!(at(&out, x, 0), px(255, 255, 255, 0));
    }
}

#[test]
fn degenerate_single_column() {
    let img = uniform(1, 5, WHITE);
    let out = remove_background(&img, 0);
    for y in 0..5 {
        assert_eq!(at(&out, 0, y), px(255, 255, 255, 0));
    }
}

#[test]
fn rgb_channels_are_never_touched() {
    let mut img = uniform(3, 3, WHITE);
    img.pixels[1 * 3 + 1] = px(12, 200, 77, 3);
    let out = remove_background(&img, 25);
    for i in 0..img.pixels.len() {
        assert_eq!(out.pixels[i].r, img.pixels[i].r);
        assert_eq!(out.pixels[i].g, img.pixels[i].g);
        assert_eq!(out.pixels[i].b, img.pixels[i].b);
    }
}

#[test]
fn checked_fill_rejects_zero_sized_images() {
    let empty_width = Image { width: 0, height: 4, pixels: vec![] };
    assert!(try_remove_background(&empty_width, 30).is_none());
    let empty_height = Image { width: 4, height: 0, pixels: vec![] };
    assert!(try_remove_background(&empty_height, 30).is_none());
}

#[test]
fn checked_fill_rejects_malformed_buffers() {
    let short = Image { width: 2, height: 2, pixels: vec![WHITE; 3] };
    assert!(try_remove_background(&short, 30).is_none());
}

#[test]
fn checked_fill_accepts_well_formed_images() {
    let img = uniform(2, 2, WHITE);
    let out = try_remove_background(&img, 0).unwrap();
    for y in 0..2 {
        for x in 0..2 {
            assert_eq!(at(&out, x, y), px(255, 255, 255, 0));
        }
    }
}
