//! Laws of the fill, proved from its contract alone: it is a function of the
//! source image and threshold, applying it twice changes nothing more, an
//! all-white image empties entirely, and an image with no near-white pixel
//! comes back untouched.

use vstd::prelude::*;
use crate::pixel::{near_white, clear_alpha};
use crate::raster::{Image, lemma_grid_index_inverse};
use crate::fill::{
    removable, fill_path, reachable, fill_output, lemma_reachable_removable,
    lemma_border_reachable, lemma_reachable_step,
};

verus! {

/// Two images of the same dimensions whose red, green and blue channels
/// agree everywhere; the alpha channels may differ.
pub open spec fn same_colours(i1: Image, i2: Image) -> bool {
    &&& i1.width == i2.width
    &&& i1.height == i2.height
    &&& forall|x: int, y: int|
        i1.in_bounds(x, y) ==> {
            &&& (#[trigger] i1.pixel(x, y)).r == i2.pixel(x, y).r
            &&& i1.pixel(x, y).g == i2.pixel(x, y).g
            &&& i1.pixel(x, y).b == i2.pixel(x, y).b
        }
}

/// Whether a pixel is removable depends only on the colour channels, so it
/// transfers between images with the same colours.
proof fn lemma_same_colours_removable(i1: Image, i2: Image, t: u8, x: int, y: int)
    requires
        same_colours(i1, i2),
        removable(i1, t, x, y),
    ensures
        removable(i2, t, x, y),
{
    assert(i1.pixel(x, y).r == i2.pixel(x, y).r);
    if x > 0 {
        assert(i1.pixel(x - 1, y).r == i2.pixel(x - 1, y).r);
    }
    if x + 1 < i1.width {
        assert(i1.pixel(x + 1, y).r == i2.pixel(x + 1, y).r);
    }
    if y > 0 {
        assert(i1.pixel(x, y - 1).r == i2.pixel(x, y - 1).r);
    }
    if y + 1 < i1.height {
        assert(i1.pixel(x, y + 1).r == i2.pixel(x, y + 1).r);
    }
}

/// Reachability likewise depends only on the colour channels.
proof fn lemma_same_colours_reachable(i1: Image, i2: Image, t: u8, x: int, y: int)
    requires
        same_colours(i1, i2),
        reachable(i1, t, x, y),
    ensures
        reachable(i2, t, x, y),
{
    let p = choose|p: Seq<(int, int)>| #[trigger] fill_path(i1, t, p) && p.last() == (x, y);
    assert forall|i: int| #![trigger p[i]] 0 <= i < p.len() implies removable(
        i2,
        t,
        p[i].0,
        p[i].1,
    ) by {
        lemma_same_colours_removable(i1, i2, t, p[i].0, p[i].1);
    }
    assert(fill_path(i2, t, p));
}

/// Images of equal dimensions that agree on every in-bounds pixel hold the
/// same flat buffer.
proof fn lemma_pixelwise_eq(i1: Image, i2: Image)
    requires
        i1.wf(),
        i2.wf(),
        i1.width == i2.width,
        i1.height == i2.height,
        forall|x: int, y: int|
            i1.in_bounds(x, y) ==> #[trigger] i1.pixel(x, y) == i2.pixel(x, y),
    ensures
        i1.pixels@ == i2.pixels@,
{
    let w = i1.width as int;
    let h = i1.height as int;
    assert forall|i: int| 0 <= i < i1.pixels@.len() implies i1.pixels@[i] == i2.pixels@[i] by {
        assert(w >= 1) by (nonlinear_arith)
            requires
                0 <= i < w * h,
                w >= 0,
        ;
        lemma_grid_index_inverse(w, h, i);
        assert(i1.pixel(i % w, i / w) == i2.pixel(i % w, i / w));
    }
    assert(i1.pixels@ =~= i2.pixels@);
}

/// Determinism: the fill's result is a function of the source image and the
/// threshold alone. Any two outputs the contract admits for the same input
/// are the same buffer.
pub proof fn lemma_fill_deterministic(img: Image, t: u8, o1: Image, o2: Image)
    requires
        img.wf(),
        fill_output(img, t, o1),
        fill_output(img, t, o2),
    ensures
        o1.width == o2.width,
        o1.height == o2.height,
        o1.pixels@ == o2.pixels@,
{
    assert forall|x: int, y: int|
        o1.in_bounds(x, y) implies #[trigger] o1.pixel(x, y) == o2.pixel(x, y) by {
        assert(img.in_bounds(x, y));
    }
    lemma_pixelwise_eq(o1, o2);
}

/// Idempotence: the fill only clears alpha and classifies by colour, so
/// running it again on its own output changes nothing further.
pub proof fn lemma_fill_idempotent(img: Image, t: u8, o1: Image, o2: Image)
    requires
        img.wf(),
        fill_output(img, t, o1),
        fill_output(o1, t, o2),
    ensures
        o2.width == o1.width,
        o2.height == o1.height,
        o2.pixels@ == o1.pixels@,
{
    assert forall|x: int, y: int|
        img.in_bounds(x, y) implies {
            &&& (#[trigger] img.pixel(x, y)).r == o1.pixel(x, y).r
            &&& img.pixel(x, y).g == o1.pixel(x, y).g
            &&& img.pixel(x, y).b == o1.pixel(x, y).b
        } by {
        assert(o1.pixel(x, y) == (if reachable(img, t, x, y) {
            clear_alpha(img.pixel(x, y))
        } else {
            img.pixel(x, y)
        }));
    }
    assert(same_colours(img, o1));
    assert(same_colours(o1, img)) by {
        assert forall|x: int, y: int|
            o1.in_bounds(x, y) implies {
                &&& (#[trigger] o1.pixel(x, y)).r == img.pixel(x, y).r
                &&& o1.pixel(x, y).g == img.pixel(x, y).g
                &&& o1.pixel(x, y).b == img.pixel(x, y).b
            } by {
            assert(img.pixel(x, y).r == o1.pixel(x, y).r);
        }
    }
    assert forall|x: int, y: int|
        o1.in_bounds(x, y) implies #[trigger] o2.pixel(x, y) == o1.pixel(x, y) by {
        if reachable(o1, t, x, y) {
            lemma_same_colours_reachable(o1, img, t, x, y);
            assert(reachable(img, t, x, y));
            assert(o1.pixel(x, y) == clear_alpha(img.pixel(x, y)));
            assert(o2.pixel(x, y) == clear_alpha(o1.pixel(x, y)));
        } else {
            if reachable(img, t, x, y) {
                lemma_same_colours_reachable(img, o1, t, x, y);
            }
            assert(!reachable(img, t, x, y));
            assert(o2.pixel(x, y) == o1.pixel(x, y));
        }
    }
    lemma_pixelwise_eq(o2, o1);
}

/// In a grid whose every pixel is removable, every pixel is reachable: walk
/// straight up the column to the top border.
proof fn lemma_all_removable_reachable(img: Image, t: u8, x: int, y: int)
    requires
        img.wf(),
        img.in_bounds(x, y),
        forall|a: int, b: int| img.in_bounds(a, b) ==> #[trigger] removable(img, t, a, b),
    ensures
        reachable(img, t, x, y),
    decreases y,
{
    if y == 0 {
        lemma_border_reachable(img, t, x, y);
    } else {
        lemma_all_removable_reachable(img, t, x, y - 1);
        lemma_reachable_step(img, t, x, y - 1, x, y);
    }
}

/// Border invariant: a uniformly pure-white image filled at threshold zero
/// comes back fully transparent.
pub proof fn lemma_uniform_white_all_transparent(img: Image, out: Image)
    requires
        img.wf(),
        img.width >= 1,
        img.height >= 1,
        forall|x: int, y: int|
            img.in_bounds(x, y) ==> {
                &&& (#[trigger] img.pixel(x, y)).r == 255
                &&& img.pixel(x, y).g == 255
                &&& img.pixel(x, y).b == 255
            },
        fill_output(img, 0, out),
    ensures
        forall|x: int, y: int|
            img.in_bounds(x, y) ==> (#[trigger] out.pixel(x, y)).a == 0,
{
    assert forall|x: int, y: int| img.in_bounds(x, y) implies #[trigger] removable(
        img,
        0,
        x,
        y,
    ) by {
        assert(img.pixel(x, y).r == 255);
        if x > 0 {
            assert(img.pixel(x - 1, y).r == 255);
        }
        if x + 1 < img.width {
            assert(img.pixel(x + 1, y).r == 255);
        }
        if y > 0 {
            assert(img.pixel(x, y - 1).r == 255);
        }
        if y + 1 < img.height {
            assert(img.pixel(x, y + 1).r == 255);
        }
    }
    assert forall|x: int, y: int| img.in_bounds(x, y) implies (#[trigger] out.pixel(x, y)).a
        == 0 by {
        lemma_all_removable_reachable(img, 0, x, y);
        assert(out.pixel(x, y) == clear_alpha(img.pixel(x, y)));
    }
}

/// No-removal case: an image without a single near-white pixel comes back
/// exactly as it went in, whatever the threshold.
pub proof fn lemma_no_near_white_identity(img: Image, t: u8, out: Image)
    requires
        img.wf(),
        forall|x: int, y: int|
            img.in_bounds(x, y) ==> !near_white(#[trigger] img.pixel(x, y)),
        fill_output(img, t, out),
    ensures
        out.width == img.width,
        out.height == img.height,
        out.pixels@ == img.pixels@,
{
    assert forall|x: int, y: int|
        img.in_bounds(x, y) implies #[trigger] out.pixel(x, y) == img.pixel(x, y) by {
        if reachable(img, t, x, y) {
            lemma_reachable_removable(img, t, x, y);
            assert(near_white(img.pixel(x, y)));
        }
    }
    lemma_pixelwise_eq(out, img);
}

} // verus!
