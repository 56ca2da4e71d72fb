//! The in-memory raster: a width × height grid of pixels, row-major, origin
//! at the top left, stored flat in one vector.

use vstd::prelude::*;
use crate::pixel::Pixel;

verus! {

/// A decoded image: `width * height` pixels in row-major order.
pub struct Image {
    pub width: usize,
    pub height: usize,
    pub pixels: Vec<Pixel>,
}

/// The pixel that four consecutive bytes of a flat RGBA buffer spell.
pub open spec fn raw_pixel(bytes: Seq<u8>, i: int) -> Pixel {
    Pixel { r: bytes[4 * i], g: bytes[4 * i + 1], b: bytes[4 * i + 2], a: bytes[4 * i + 3] }
}

/// Row-major position of a coordinate in the flat pixel vector.
pub open spec fn grid_index(width: int, x: int, y: int) -> int {
    y * width + x
}

/// A coordinate inside a `width` × `height` grid maps below `width * height`.
pub proof fn lemma_grid_index_in_range(width: int, height: int, x: int, y: int)
    requires
        0 <= x < width,
        0 <= y < height,
    ensures
        0 <= grid_index(width, x, y) < width * height,
{
    assert(0 <= y * width + x < width * height) by (nonlinear_arith)
        requires
            0 <= x < width,
            0 <= y < height,
    ;
}

/// Every flat position below `width * height` is the image of exactly one
/// coordinate: the one its division and remainder by `width` name.
pub proof fn lemma_grid_index_inverse(width: int, height: int, i: int)
    requires
        width >= 1,
        0 <= i < width * height,
    ensures
        0 <= i % width < width,
        0 <= i / width < height,
        grid_index(width, i % width, i / width) == i,
{
    vstd::arithmetic::div_mod::lemma_fundamental_div_mod(i, width);
    vstd::arithmetic::div_mod::lemma_mod_bound(i, width);
    let q = i / width;
    let r = i % width;
    assert(0 <= q && q < height && q * width + r == i) by (nonlinear_arith)
        requires
            i == width * q + r,
            0 <= r < width,
            0 <= i,
            i < width * height,
            width >= 1,
    ;
}

/// Distinct coordinates of one grid map to distinct flat positions.
pub proof fn lemma_grid_index_injective(width: int, x1: int, y1: int, x2: int, y2: int)
    requires
        0 <= x1 < width,
        0 <= x2 < width,
        grid_index(width, x1, y1) == grid_index(width, x2, y2),
    ensures
        x1 == x2 && y1 == y2,
{
    assert(y1 * width + x1 == y2 * width + x2 && 0 <= x1 < width && 0 <= x2 < width ==> x1 == x2
        && y1 == y2) by (nonlinear_arith);
}

impl Image {
    /// The buffer holds exactly one pixel per coordinate.
    pub open spec fn wf(self) -> bool {
        self.pixels@.len() == self.width * self.height
    }

    /// Whether a coordinate lies on the grid.
    pub open spec fn in_bounds(self, x: int, y: int) -> bool {
        0 <= x < self.width && 0 <= y < self.height
    }

    /// The pixel at a coordinate.
    pub open spec fn pixel(self, x: int, y: int) -> Pixel {
        self.pixels@[grid_index(self.width as int, x, y)]
    }

    /// Builds a uniform image, or reports that `width * height` pixels cannot
    /// be counted in a machine word.
    pub fn new(width: usize, height: usize, fill: Pixel) -> (r: Option<Image>)
        ensures
            match r {
                Some(img) => {
                    &&& img.wf()
                    &&& img.width == width
                    &&& img.height == height
                    &&& forall|x: int, y: int|
                        img.in_bounds(x, y) ==> #[trigger] img.pixel(x, y) == fill
                },
                None => width * height > usize::MAX,
            },
    {
        match width.checked_mul(height) {
            None => None,
            Some(total) => {
                let mut pixels: Vec<Pixel> = Vec::new();
                let mut i: usize = 0;
                while i < total
                    invariant
                        i <= total,
                        pixels@.len() == i,
                        forall|j: int| 0 <= j < i ==> pixels@[j] == fill,
                    decreases total - i,
                {
                    pixels.push(fill);
                    i = i + 1;
                }
                let img = Image { width, height, pixels };
                proof {
                    assert forall|x: int, y: int| img.in_bounds(x, y) implies #[trigger] img.pixel(
                        x,
                        y,
                    ) == fill by {
                        lemma_grid_index_in_range(width as int, height as int, x, y);
                    }
                }
                Some(img)
            },
        }
    }

    /// Packs a flat RGBA byte buffer into an image: four bytes per pixel,
    /// row-major, or `None` when the buffer does not hold exactly
    /// `4 * width * height` bytes.
    pub fn from_raw(width: usize, height: usize, bytes: &[u8]) -> (r: Option<Image>)
        ensures
            match r {
                Some(img) => {
                    &&& img.wf()
                    &&& img.width == width
                    &&& img.height == height
                    &&& bytes@.len() == 4 * (width * height)
                    &&& forall|i: int|
                        0 <= i < width * height ==> #[trigger] img.pixels@[i] == raw_pixel(
                            bytes@,
                            i,
                        )
                },
                None => bytes@.len() != 4 * (width * height),
            },
    {
        let n = bytes.len();
        proof {
            assert(width * height >= 0) by (nonlinear_arith)
                requires
                    width >= 0,
                    height >= 0,
            ;
        }
        let total = match width.checked_mul(height) {
            Some(t) => t,
            None => {
                return None;
            },
        };
        let expected = match total.checked_mul(4) {
            Some(e) => e,
            None => {
                return None;
            },
        };
        if n != expected {
            return None;
        }
        let mut pixels: Vec<Pixel> = Vec::new();
        let mut i: usize = 0;
        while i < total
            invariant
                total == width * height,
                expected == 4 * total,
                bytes@.len() == expected,
                i <= total,
                pixels@.len() == i,
                forall|j: int| 0 <= j < i ==> #[trigger] pixels@[j] == raw_pixel(bytes@, j),
            decreases total - i,
        {
            let p = Pixel {
                r: bytes[4 * i],
                g: bytes[4 * i + 1],
                b: bytes[4 * i + 2],
                a: bytes[4 * i + 3],
            };
            pixels.push(p);
            i = i + 1;
        }
        Some(Image { width, height, pixels })
    }

    /// Unpacks an image into a flat RGBA byte buffer: four bytes per pixel,
    /// row-major.
    pub fn to_raw(&self) -> (r: Vec<u8>)
        ensures
            r@.len() == 4 * self.pixels@.len(),
            forall|i: int|
                0 <= i < self.pixels@.len() ==> #[trigger] raw_pixel(r@, i) == self.pixels@[i],
    {
        let total = self.pixels.len();
        let mut r: Vec<u8> = Vec::new();
        let mut i: usize = 0;
        while i < total
            invariant
                total == self.pixels@.len(),
                i <= total,
                r@.len() == 4 * i,
                forall|j: int| 0 <= j < i ==> #[trigger] raw_pixel(r@, j) == self.pixels@[j],
            decreases total - i,
        {
            let ghost r0 = r@;
            let p = self.pixels[i];
            r.push(p.r);
            r.push(p.g);
            r.push(p.b);
            r.push(p.a);
            proof {
                assert forall|j: int| 0 <= j < i + 1 implies #[trigger] raw_pixel(r@, j)
                    == self.pixels@[j] by {
                    if j < i {
                        assert(raw_pixel(r0, j) == self.pixels@[j]);
                        assert(r@[4 * j] == r0[4 * j]);
                        assert(r@[4 * j + 1] == r0[4 * j + 1]);
                        assert(r@[4 * j + 2] == r0[4 * j + 2]);
                        assert(r@[4 * j + 3] == r0[4 * j + 3]);
                    } else {
                        assert(r@[4 * j] == p.r);
                        assert(r@[4 * j + 1] == p.g);
                        assert(r@[4 * j + 2] == p.b);
                        assert(r@[4 * j + 3] == p.a);
                    }
                }
            }
            i = i + 1;
        }
        r
    }

    /// Reads the pixel at an in-bounds coordinate.
    pub fn get_pixel(&self, x: usize, y: usize) -> (p: Pixel)
        requires
            self.wf(),
            x < self.width,
            y < self.height,
        ensures
            p == self.pixel(x as int, y as int),
    {
        proof {
            lemma_grid_index_in_range(self.width as int, self.height as int, x as int, y as int);
        }
        // Reading the length bounds the flat index by a machine word.
        let n = self.pixels.len();
        self.pixels[y * self.width + x]
    }

    /// Replaces the pixel at an in-bounds coordinate, leaving every other
    /// coordinate as it was.
    pub fn put_pixel(&mut self, x: usize, y: usize, p: Pixel)
        requires
            old(self).wf(),
            x < old(self).width,
            y < old(self).height,
        ensures
            final(self).wf(),
            final(self).width == old(self).width,
            final(self).height == old(self).height,
            final(self).pixel(x as int, y as int) == p,
            forall|a: int, b: int|
                old(self).in_bounds(a, b) && !(a == x && b == y) ==> #[trigger] final(self).pixel(
                    a,
                    b,
                ) == old(self).pixel(a, b),
    {
        proof {
            lemma_grid_index_in_range(self.width as int, self.height as int, x as int, y as int);
        }
        // Reading the length bounds the flat index by a machine word.
        let n = self.pixels.len();
        let i = y * self.width + x;
        self.pixels[i] = p;
        proof {
            assert forall|a: int, b: int|
                old(self).in_bounds(a, b) && !(a == x && b == y) implies #[trigger] self.pixel(a, b)
                == old(self).pixel(a, b) by {
                lemma_grid_index_in_range(
                    self.width as int,
                    self.height as int,
                    a,
                    b,
                );
                if grid_index(self.width as int, a, b) == grid_index(
                    self.width as int,
                    x as int,
                    y as int,
                ) {
                    lemma_grid_index_injective(self.width as int, a, b, x as int, y as int);
                }
            }
        }
    }
}

} // verus!
