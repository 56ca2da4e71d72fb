//! The border-seeded flood fill: what it means for a pixel to be removable,
//! which pixels the fill reaches from the image border, and the breadth-first
//! traversal that clears the alpha channel of exactly those pixels.

use vstd::prelude::*;
use crate::pixel::{Pixel, edge_between, near_white, clear_alpha, is_edge, is_near_white};
use crate::raster::{Image, grid_index, lemma_grid_index_in_range, lemma_grid_index_injective};

verus! {

/// The edge threshold used when a caller names none.
pub const DEFAULT_EDGE_THRESHOLD: u8 = 30;

/// A coordinate on the outer ring of the image: the top or bottom row, or
/// the leftmost or rightmost column.
pub open spec fn on_border(img: Image, x: int, y: int) -> bool {
    img.in_bounds(x, y) && (x == 0 || y == 0 || x == img.width - 1 || y == img.height - 1)
}

/// 4-connectivity: two coordinates that differ by one step horizontally or
/// vertically.
pub open spec fn adjacent(x1: int, y1: int, x2: int, y2: int) -> bool {
    ||| (x1 == x2 && (y1 == y2 + 1 || y2 == y1 + 1))
    ||| (y1 == y2 && (x1 == x2 + 1 || x2 == x1 + 1))
}

/// A pixel the fill may remove: near-white, and with no contrast edge
/// between it and any of its in-bounds 4-neighbours. A single edge toward
/// any neighbour retains the pixel and halts the fill there.
pub open spec fn removable(img: Image, t: u8, x: int, y: int) -> bool {
    &&& img.in_bounds(x, y)
    &&& near_white(img.pixel(x, y))
    &&& (x > 0 ==> !edge_between(img.pixel(x, y), img.pixel(x - 1, y), t))
    &&& (x + 1 < img.width ==> !edge_between(img.pixel(x, y), img.pixel(x + 1, y), t))
    &&& (y > 0 ==> !edge_between(img.pixel(x, y), img.pixel(x, y - 1), t))
    &&& (y + 1 < img.height ==> !edge_between(img.pixel(x, y), img.pixel(x, y + 1), t))
}

/// A chain of coordinates that starts on the border, moves by 4-adjacent
/// steps, and consists of removable pixels only.
pub open spec fn fill_path(img: Image, t: u8, p: Seq<(int, int)>) -> bool {
    &&& p.len() >= 1
    &&& on_border(img, p[0].0, p[0].1)
    &&& forall|i: int| #![trigger p[i]] 0 <= i < p.len() ==> removable(img, t, p[i].0, p[i].1)
    &&& forall|i: int|
        #![trigger p[i]]
        0 <= i < p.len() - 1 ==> adjacent(p[i].0, p[i].1, p[i + 1].0, p[i + 1].1)
}

/// The pixels the fill removes: those that some chain of removable pixels
/// connects to the border.
pub open spec fn reachable(img: Image, t: u8, x: int, y: int) -> bool {
    exists|p: Seq<(int, int)>| #[trigger] fill_path(img, t, p) && p.last() == (x, y)
}

/// What the fill returns for a given source image and threshold: the same
/// grid, with the alpha of every border-reachable removable pixel cleared
/// and every other pixel untouched.
pub open spec fn fill_output(img: Image, t: u8, out: Image) -> bool {
    &&& out.width == img.width
    &&& out.height == img.height
    &&& out.wf()
    &&& forall|x: int, y: int|
        img.in_bounds(x, y) ==> #[trigger] out.pixel(x, y) == (if reachable(img, t, x, y) {
            clear_alpha(img.pixel(x, y))
        } else {
            img.pixel(x, y)
        })
}

/// A reachable pixel is itself removable: it is the last step of its chain.
pub proof fn lemma_reachable_removable(img: Image, t: u8, x: int, y: int)
    requires
        reachable(img, t, x, y),
    ensures
        removable(img, t, x, y),
{
    let p = choose|p: Seq<(int, int)>| #[trigger] fill_path(img, t, p) && p.last() == (x, y);
    assert(removable(img, t, p[p.len() - 1].0, p[p.len() - 1].1));
}

/// A removable border pixel is reachable by the one-step chain that starts
/// and ends at it.
pub proof fn lemma_border_reachable(img: Image, t: u8, x: int, y: int)
    requires
        on_border(img, x, y),
        removable(img, t, x, y),
    ensures
        reachable(img, t, x, y),
{
    let p: Seq<(int, int)> = seq![(x, y)];
    assert(p.last() == (x, y));
    assert(fill_path(img, t, p));
}

/// A removable pixel next to a reachable one is reachable: extend the chain
/// by one step.
pub proof fn lemma_reachable_step(img: Image, t: u8, x1: int, y1: int, x2: int, y2: int)
    requires
        reachable(img, t, x1, y1),
        adjacent(x1, y1, x2, y2),
        removable(img, t, x2, y2),
    ensures
        reachable(img, t, x2, y2),
{
    let p = choose|p: Seq<(int, int)>| #[trigger] fill_path(img, t, p) && p.last() == (x1, y1);
    let q = p.push((x2, y2));
    assert(q.last() == (x2, y2));
    assert forall|i: int| #![trigger q[i]] 0 <= i < q.len() implies removable(
        img,
        t,
        q[i].0,
        q[i].1,
    ) by {
        if i < p.len() {
            assert(q[i] == p[i]);
        }
    }
    assert forall|i: int| #![trigger q[i]] 0 <= i < q.len() - 1 implies adjacent(
        q[i].0,
        q[i].1,
        q[i + 1].0,
        q[i + 1].1,
    ) by {
        if i < p.len() - 1 {
            assert(q[i] == p[i]);
            assert(q[i + 1] == p[i + 1]);
        } else {
            assert(q[i] == p[p.len() - 1]);
            assert(q[i + 1] == (x2, y2));
        }
    }
    assert(fill_path(img, t, q));
}

/// How many grid cells a visited grid still has unvisited; the measure that
/// shrinks whenever the traversal marks a new cell.
pub open spec fn count_unvisited(s: Seq<bool>) -> int
    decreases s.len(),
{
    if s.len() == 0 {
        0
    } else {
        count_unvisited(s.drop_last()) + if s.last() {
            0int
        } else {
            1int
        }
    }
}

proof fn lemma_count_unvisited_nonneg(s: Seq<bool>)
    ensures
        count_unvisited(s) >= 0,
    decreases s.len(),
{
    if s.len() > 0 {
        lemma_count_unvisited_nonneg(s.drop_last());
    }
}

/// Marking one unvisited cell lowers the count by exactly one.
proof fn lemma_count_unvisited_update(s: Seq<bool>, i: int)
    requires
        0 <= i < s.len(),
        !s[i],
    ensures
        count_unvisited(s.update(i, true)) == count_unvisited(s) - 1,
    decreases s.len(),
{
    let u = s.update(i, true);
    if i == s.len() - 1 {
        assert(u.drop_last() =~= s.drop_last());
    } else {
        assert(u.drop_last() =~= s.drop_last().update(i, true));
        lemma_count_unvisited_update(s.drop_last(), i);
    }
}

/// Whether the visited grid marks a coordinate.
pub open spec fn seen(img: Image, v: Seq<bool>, x: int, y: int) -> bool {
    v[grid_index(img.width as int, x, y)]
}

/// Whether a coordinate still sits in the work queue.
pub open spec fn queued(q: Seq<(usize, usize)>, x: int, y: int) -> bool {
    exists|i: int| 0 <= i < q.len() && (#[trigger] q[i]).0 as int == x && q[i].1 as int == y
}

/// A coordinate the traversal has either marked or still holds queued.
pub open spec fn covered(img: Image, v: Seq<bool>, q: Seq<(usize, usize)>, x: int, y: int) -> bool {
    seen(img, v, x, y) || queued(q, x, y)
}

/// Every in-bounds 4-neighbour of a coordinate is marked or queued.
pub open spec fn neighbors_covered(
    img: Image,
    v: Seq<bool>,
    q: Seq<(usize, usize)>,
    x: int,
    y: int,
) -> bool {
    &&& (x > 0 ==> covered(img, v, q, x - 1, y))
    &&& (x + 1 < img.width ==> covered(img, v, q, x + 1, y))
    &&& (y > 0 ==> covered(img, v, q, x, y - 1))
    &&& (y + 1 < img.height ==> covered(img, v, q, x, y + 1))
}

/// What justifies a queue entry: it was seeded on the border, or some
/// reachable neighbour enqueued it.
pub open spec fn enqueue_justified(img: Image, t: u8, x: int, y: int) -> bool {
    ||| on_border(img, x, y)
    ||| exists|a: int, b: int| #[trigger] adjacent(a, b, x, y) && reachable(img, t, a, b)
}

/// A justified queue entry that turns out removable is reachable.
proof fn lemma_justified_reachable(img: Image, t: u8, x: int, y: int)
    requires
        enqueue_justified(img, t, x, y),
        removable(img, t, x, y),
    ensures
        reachable(img, t, x, y),
{
    if on_border(img, x, y) {
        lemma_border_reachable(img, t, x, y);
    } else {
        let (a, b) = choose|a: int, b: int|
            #[trigger] adjacent(a, b, x, y) && reachable(img, t, a, b);
        lemma_reachable_step(img, t, a, b, x, y);
    }
}

/// A queued coordinate stays queued when the queue only grows at the back.
proof fn lemma_queued_prefix_preserved(
    q1: Seq<(usize, usize)>,
    q2: Seq<(usize, usize)>,
    x: int,
    y: int,
)
    requires
        queued(q1, x, y),
        q1.len() <= q2.len(),
        forall|i: int| 0 <= i < q1.len() ==> q2[i] == q1[i],
    ensures
        queued(q2, x, y),
{
    let i = choose|i: int| 0 <= i < q1.len() && (#[trigger] q1[i]).0 as int == x && q1[i].1 as int
        == y;
    assert(q2[i] == q1[i]);
}

/// Popping the front entry keeps every other coordinate queued.
proof fn lemma_queued_after_pop(q: Seq<(usize, usize)>, x: int, y: int)
    requires
        q.len() >= 1,
        queued(q, x, y),
        !(q[0].0 as int == x && q[0].1 as int == y),
    ensures
        queued(q.subrange(1, q.len() as int), x, y),
{
    let i = choose|i: int| 0 <= i < q.len() && (#[trigger] q[i]).0 as int == x && q[i].1 as int
        == y;
    assert(q.subrange(1, q.len() as int)[i - 1] == q[i]);
}

/// One iteration of the fill keeps a coordinate covered: the grid only gains
/// marks, and the only queue entry lost is the one the iteration marked.
proof fn lemma_covered_step(
    img: Image,
    v1: Seq<bool>,
    v2: Seq<bool>,
    q1: Seq<(usize, usize)>,
    q2: Seq<(usize, usize)>,
    x: int,
    y: int,
    a: int,
    b: int,
)
    requires
        img.wf(),
        v1.len() == img.width * img.height,
        v2.len() == v1.len(),
        img.in_bounds(x, y),
        img.in_bounds(a, b),
        forall|j: int| 0 <= j < v1.len() && v1[j] ==> v2[j],
        seen(img, v2, x, y),
        forall|c: int, d: int|
            img.in_bounds(c, d) && !(c == x && d == y) && queued(q1, c, d) ==> queued(q2, c, d),
        covered(img, v1, q1, a, b),
    ensures
        covered(img, v2, q2, a, b),
{
    lemma_grid_index_in_range(img.width as int, img.height as int, a, b);
    if seen(img, v1, a, b) {
        assert(seen(img, v2, a, b));
    } else {
        assert(queued(q1, a, b));
        if a == x && b == y {
            assert(seen(img, v2, a, b));
        } else {
            assert(queued(q2, a, b));
        }
    }
}

/// Once the queue has drained, the visited grid is closed under the fill's
/// step rule, so it marks the last coordinate of every chain of removable
/// pixels that starts on the border.
proof fn lemma_closed_grid_covers_paths(img: Image, t: u8, v: Seq<bool>, p: Seq<(int, int)>)
    requires
        img.wf(),
        v.len() == img.width * img.height,
        forall|x: int, y: int| on_border(img, x, y) ==> seen(img, v, x, y),
        forall|x: int, y: int|
            img.in_bounds(x, y) && #[trigger] seen(img, v, x, y) && removable(img, t, x, y)
                ==> neighbors_covered(img, v, Seq::<(usize, usize)>::empty(), x, y),
        fill_path(img, t, p),
    ensures
        seen(img, v, p.last().0, p.last().1),
    decreases p.len(),
{
    let last = p[p.len() - 1];
    assert(removable(img, t, last.0, last.1));
    if p.len() == 1 {
        assert(on_border(img, p[0].0, p[0].1));
    } else {
        let q = p.drop_last();
        assert(q[0] == p[0]);
        assert forall|i: int| #![trigger q[i]] 0 <= i < q.len() implies removable(
            img,
            t,
            q[i].0,
            q[i].1,
        ) by {
            assert(q[i] == p[i]);
        }
        assert forall|i: int| #![trigger q[i]] 0 <= i < q.len() - 1 implies adjacent(
            q[i].0,
            q[i].1,
            q[i + 1].0,
            q[i + 1].1,
        ) by {
            assert(q[i] == p[i]);
            assert(q[i + 1] == p[i + 1]);
        }
        assert(fill_path(img, t, q));
        lemma_closed_grid_covers_paths(img, t, v, q);
        let prev = q[q.len() - 1];
        assert(prev == p[p.len() - 2]);
        assert(seen(img, v, prev.0, prev.1));
        assert(removable(img, t, prev.0, prev.1));
        assert(adjacent(prev.0, prev.1, last.0, last.1));
        assert(neighbors_covered(img, v, Seq::<(usize, usize)>::empty(), prev.0, prev.1));
        assert(img.in_bounds(last.0, last.1));
        assert(!queued(Seq::<(usize, usize)>::empty(), last.0, last.1));
    }
}

/// Appends every in-bounds 4-neighbour of `(x, y)` to the back of the queue,
/// leaving the entries already present untouched.
fn enqueue_neighbors(
    queue: &mut std::collections::VecDeque<(usize, usize)>,
    x: usize,
    y: usize,
    width: usize,
    height: usize,
)
    requires
        x < width,
        y < height,
    ensures
        old(queue)@.len() <= final(queue)@.len(),
        forall|i: int| 0 <= i < old(queue)@.len() ==> final(queue)@[i] == old(queue)@[i],
        forall|i: int|
            old(queue)@.len() <= i < final(queue)@.len() ==> {
                &&& (#[trigger] final(queue)@[i]).0 < width
                &&& final(queue)@[i].1 < height
                &&& adjacent(
                    final(queue)@[i].0 as int,
                    final(queue)@[i].1 as int,
                    x as int,
                    y as int,
                )
            },
        x > 0 ==> queued(final(queue)@, x as int - 1, y as int),
        x + 1 < width ==> queued(final(queue)@, x as int + 1, y as int),
        y > 0 ==> queued(final(queue)@, x as int, y as int - 1),
        y + 1 < height ==> queued(final(queue)@, x as int, y as int + 1),
{
    let ghost mut i_left: int = 0;
    let ghost mut i_right: int = 0;
    let ghost mut i_up: int = 0;
    let ghost mut i_down: int = 0;
    if x > 0 {
        proof {
            i_left = queue@.len() as int;
        }
        queue.push_back((x - 1, y));
    }
    if x + 1 < width {
        proof {
            i_right = queue@.len() as int;
        }
        queue.push_back((x + 1, y));
    }
    if y > 0 {
        proof {
            i_up = queue@.len() as int;
        }
        queue.push_back((x, y - 1));
    }
    if y + 1 < height {
        proof {
            i_down = queue@.len() as int;
        }
        queue.push_back((x, y + 1));
    }
    proof {
        if x > 0 {
            assert(queue@[i_left].0 as int == x as int - 1 && queue@[i_left].1 as int == y as int);
        }
        if x + 1 < width {
            assert(queue@[i_right].0 as int == x as int + 1 && queue@[i_right].1 as int
                == y as int);
        }
        if y > 0 {
            assert(queue@[i_up].0 as int == x as int && queue@[i_up].1 as int == y as int - 1);
        }
        if y + 1 < height {
            assert(queue@[i_down].0 as int == x as int && queue@[i_down].1 as int == y as int + 1);
        }
    }
}

/// Removes the outer near-white background of an image: every pixel that a
/// chain of removable pixels connects to the border has its alpha cleared in
/// the returned copy; every other pixel is returned exactly as it came. The
/// source image is only read.
pub fn remove_background(img: &Image, edge_threshold: u8) -> (out: Image)
    requires
        img.wf(),
        img.width >= 1,
        img.height >= 1,
    ensures
        fill_output(*img, edge_threshold, out),
{
    let t = edge_threshold;
    let width = img.width;
    let height = img.height;
    let total = img.pixels.len();

    // The output starts as a copy of the source.
    let mut out_pixels: Vec<Pixel> = Vec::new();
    let mut i: usize = 0;
    while i < total
        invariant
            total == img.pixels@.len(),
            i <= total,
            out_pixels@.len() == i,
            forall|j: int| 0 <= j < i ==> out_pixels@[j] == img.pixels@[j],
        decreases total - i,
    {
        let p = img.pixels[i];
        out_pixels.push(p);
        i = i + 1;
    }
    let mut output = Image { width, height, pixels: out_pixels };

    // No coordinate has been processed yet.
    let mut visited: Vec<bool> = Vec::new();
    let mut k: usize = 0;
    while k < total
        invariant
            k <= total,
            visited@.len() == k,
            forall|j: int| 0 <= j < k ==> !visited@[j],
        decreases total - k,
    {
        visited.push(false);
        k = k + 1;
    }

    let mut queue: std::collections::VecDeque<(usize, usize)> = std::collections::VecDeque::new();

    // Seed the full top and bottom rows.
    let mut sx: usize = 0;
    while sx < width
        invariant
            img.wf(),
            width == img.width,
            height == img.height,
            width >= 1,
            height >= 1,
            sx <= width,
            forall|i2: int|
                0 <= i2 < queue@.len() ==> on_border(*img, (#[trigger] queue@[i2]).0 as int,
                    queue@[i2].1 as int),
            forall|a: int, b: int|
                img.in_bounds(a, b) && 0 <= a < sx && (b == 0 || b == img.height - 1)
                    ==> queued(queue@, a, b),
        decreases width - sx,
    {
        let ghost q0 = queue@;
        let ghost itop = queue@.len() as int;
        queue.push_back((sx, 0));
        let ghost ibot = queue@.len() as int;
        queue.push_back((sx, height - 1));
        proof {
            assert(queue@[itop].0 as int == sx as int && queue@[itop].1 as int == 0);
            assert(queue@[ibot].0 as int == sx as int && queue@[ibot].1 as int == height - 1);
            assert forall|a: int, b: int|
                img.in_bounds(a, b) && 0 <= a < sx && (b == 0 || b == img.height - 1)
                    implies queued(queue@, a, b) by {
                lemma_queued_prefix_preserved(q0, queue@, a, b);
            }
        }
        sx = sx + 1;
    }

    // Seed the leftmost and rightmost columns of the interior rows.
    let mut sy: usize = 1;
    while sy + 1 < height
        invariant
            img.wf(),
            width == img.width,
            height == img.height,
            width >= 1,
            height >= 1,
            1 <= sy,
            sy <= height,
            height >= 2 ==> sy <= height - 1,
            forall|i2: int|
                0 <= i2 < queue@.len() ==> on_border(*img, (#[trigger] queue@[i2]).0 as int,
                    queue@[i2].1 as int),
            forall|a: int, b: int|
                img.in_bounds(a, b) && (b == 0 || b == img.height - 1) ==> queued(queue@, a, b),
            forall|a: int, b: int|
                img.in_bounds(a, b) && 1 <= b < sy && (a == 0 || a == img.width - 1)
                    ==> queued(queue@, a, b),
        decreases height - sy,
    {
        let ghost q0 = queue@;
        let ghost ileft = queue@.len() as int;
        queue.push_back((0, sy));
        let ghost iright = queue@.len() as int;
        queue.push_back((width - 1, sy));
        proof {
            assert(queue@[ileft].0 as int == 0 && queue@[ileft].1 as int == sy as int);
            assert(queue@[iright].0 as int == width - 1 && queue@[iright].1 as int == sy as int);
            assert forall|a: int, b: int|
                img.in_bounds(a, b) && ((b == 0 || b == img.height - 1) || (1 <= b < sy && (a == 0
                    || a == img.width - 1))) implies queued(queue@, a, b) by {
                if !(queued(q0, a, b)) {
                } else {
                    lemma_queued_prefix_preserved(q0, queue@, a, b);
                }
            }
        }
        sy = sy + 1;
    }

    proof {
        // Every border coordinate is now queued, nothing is marked, and the
        // output still equals the source.
        assert forall|a: int, b: int| on_border(*img, a, b) implies covered(
            *img,
            visited@,
            queue@,
            a,
            b,
        ) by {
            if !(b == 0 || b == img.height - 1) {
                assert(1 <= b < img.height - 1);
                assert(a == 0 || a == img.width - 1);
            }
        }
        assert forall|a: int, b: int| img.in_bounds(a, b) implies !seen(*img, visited@, a, b) by {
            lemma_grid_index_in_range(width as int, height as int, a, b);
        }
        assert forall|a: int, b: int| img.in_bounds(a, b) implies #[trigger] output.pixel(a, b)
            == img.pixel(a, b) by {
            lemma_grid_index_in_range(width as int, height as int, a, b);
        }
    }

    while queue.len() > 0
        invariant
            img.wf(),
            width == img.width,
            height == img.height,
            width >= 1,
            height >= 1,
            total == img.pixels@.len(),
            visited@.len() == img.width * img.height,
            output.width == img.width,
            output.height == img.height,
            output.wf(),
            forall|i2: int|
                0 <= i2 < queue@.len() ==> img.in_bounds((#[trigger] queue@[i2]).0 as int,
                    queue@[i2].1 as int) && enqueue_justified(*img, t, queue@[i2].0 as int,
                    queue@[i2].1 as int),
            forall|a: int, b: int|
                img.in_bounds(a, b) ==> #[trigger] output.pixel(a, b) == (if seen(*img, visited@,
                    a, b) && removable(*img, t, a, b) {
                    clear_alpha(img.pixel(a, b))
                } else {
                    img.pixel(a, b)
                }),
            forall|a: int, b: int|
                img.in_bounds(a, b) && #[trigger] seen(*img, visited@, a, b) && removable(
                    *img,
                    t,
                    a,
                    b,
                ) ==> reachable(*img, t, a, b),
            forall|a: int, b: int|
                #[trigger] on_border(*img, a, b) ==> covered(*img, visited@, queue@, a, b),
            forall|a: int, b: int|
                img.in_bounds(a, b) && #[trigger] seen(*img, visited@, a, b) && removable(
                    *img,
                    t,
                    a,
                    b,
                ) ==> neighbors_covered(*img, visited@, queue@, a, b),
        decreases count_unvisited(visited@), queue@.len(),
    {
        let ghost q_pre = queue@;
        let ghost v_pre = visited@;
        proof {
            lemma_count_unvisited_nonneg(v_pre);
        }
        let front = queue.pop_front();
        let (x, y) = front.unwrap();
        proof {
            assert(q_pre[0].0 == x && q_pre[0].1 == y);
            assert(img.in_bounds(x as int, y as int));
            assert forall|c: int, d: int|
                img.in_bounds(c, d) && !(c == x as int && d == y as int) && queued(q_pre, c, d)
                    implies queued(queue@, c, d) by {
                lemma_queued_after_pop(q_pre, c, d);
            }
        }

        // Skip coordinates outside the grid; the queue never holds any.
        if x >= width || y >= height {
            continue;
        }

        proof {
            lemma_grid_index_in_range(width as int, height as int, x as int, y as int);
        }
        // Reading the length bounds the flat index by a machine word.
        let vn = visited.len();
        let idx = y * width + x;

        // Skip coordinates that were already processed.
        if visited[idx] {
            proof {
                assert(seen(*img, visited@, x as int, y as int));
                assert forall|a: int, b: int| #[trigger] on_border(*img, a, b) implies covered(
                    *img,
                    visited@,
                    queue@,
                    a,
                    b,
                ) by {
                    lemma_covered_step(
                        *img,
                        v_pre,
                        visited@,
                        q_pre,
                        queue@,
                        x as int,
                        y as int,
                        a,
                        b,
                    );
                }
                assert forall|a: int, b: int|
                    img.in_bounds(a, b) && #[trigger] seen(*img, visited@, a, b) && removable(
                        *img,
                        t,
                        a,
                        b,
                    ) implies neighbors_covered(*img, visited@, queue@, a, b) by {
                    if a > 0 {
                        lemma_covered_step(
                            *img,
                            v_pre,
                            visited@,
                            q_pre,
                            queue@,
                            x as int,
                            y as int,
                            a - 1,
                            b,
                        );
                    }
                    if a + 1 < img.width {
                        lemma_covered_step(
                            *img,
                            v_pre,
                            visited@,
                            q_pre,
                            queue@,
                            x as int,
                            y as int,
                            a + 1,
                            b,
                        );
                    }
                    if b > 0 {
                        lemma_covered_step(
                            *img,
                            v_pre,
                            visited@,
                            q_pre,
                            queue@,
                            x as int,
                            y as int,
                            a,
                            b - 1,
                        );
                    }
                    if b + 1 < img.height {
                        lemma_covered_step(
                            *img,
                            v_pre,
                            visited@,
                            q_pre,
                            queue@,
                            x as int,
                            y as int,
                            a,
                            b + 1,
                        );
                    }
                }
            }
            continue;
        }

        // Mark the coordinate as processed.
        visited[idx] = true;
        proof {
            lemma_count_unvisited_update(v_pre, idx as int);
            lemma_count_unvisited_nonneg(visited@);
            assert(seen(*img, visited@, x as int, y as int));
            assert forall|a: int, b: int|
                img.in_bounds(a, b) && !(a == x as int && b == y as int) implies seen(
                *img,
                visited@,
                a,
                b,
            ) == seen(*img, v_pre, a, b) by {
                lemma_grid_index_in_range(width as int, height as int, a, b);
                if grid_index(width as int, a, b) == grid_index(
                    width as int,
                    x as int,
                    y as int,
                ) {
                    lemma_grid_index_injective(width as int, a, b, x as int, y as int);
                }
            }
            assert forall|a: int, b: int| #[trigger] on_border(*img, a, b) implies covered(
                *img,
                visited@,
                queue@,
                a,
                b,
            ) by {
                lemma_covered_step(
                    *img,
                    v_pre,
                    visited@,
                    q_pre,
                    queue@,
                    x as int,
                    y as int,
                    a,
                    b,
                );
            }
            assert forall|a: int, b: int|
                img.in_bounds(a, b) && #[trigger] seen(*img, visited@, a, b) && removable(
                    *img,
                    t,
                    a,
                    b,
                ) && !(a == x as int && b == y as int) implies neighbors_covered(
                *img,
                visited@,
                queue@,
                a,
                b,
            ) by {
                assert(seen(*img, v_pre, a, b));
                if a > 0 {
                    lemma_covered_step(
                        *img,
                        v_pre,
                        visited@,
                        q_pre,
                        queue@,
                        x as int,
                        y as int,
                        a - 1,
                        b,
                    );
                }
                if a + 1 < img.width {
                    lemma_covered_step(
                        *img,
                        v_pre,
                        visited@,
                        q_pre,
                        queue@,
                        x as int,
                        y as int,
                        a + 1,
                        b,
                    );
                }
                if b > 0 {
                    lemma_covered_step(
                        *img,
                        v_pre,
                        visited@,
                        q_pre,
                        queue@,
                        x as int,
                        y as int,
                        a,
                        b - 1,
                    );
                }
                if b + 1 < img.height {
                    lemma_covered_step(
                        *img,
                        v_pre,
                        visited@,
                        q_pre,
                        queue@,
                        x as int,
                        y as int,
                        a,
                        b + 1,
                    );
                }
            }
        }

        // Classify the pixel from the source buffer.
        let pixel = img.get_pixel(x, y);
        if !is_near_white(pixel) {
            proof {
                assert(!removable(*img, t, x as int, y as int));
            }
            continue;
        }

        // A contrast edge toward any in-bounds neighbour retains the pixel
        // and stops the fill here.
        let mut surrounded = false;
        if x > 0 {
            if is_edge(pixel, img.get_pixel(x - 1, y), t) {
                surrounded = true;
            }
        }
        if x + 1 < width {
            if is_edge(pixel, img.get_pixel(x + 1, y), t) {
                surrounded = true;
            }
        }
        if y > 0 {
            if is_edge(pixel, img.get_pixel(x, y - 1), t) {
                surrounded = true;
            }
        }
        if y + 1 < height {
            if is_edge(pixel, img.get_pixel(x, y + 1), t) {
                surrounded = true;
            }
        }
        proof {
            assert(removable(*img, t, x as int, y as int) == !surrounded);
        }
        if surrounded {
            continue;
        }

        // The pixel is removable and its queue entry was justified, so it is
        // reachable: clear its alpha and spread to its neighbours.
        proof {
            assert(enqueue_justified(*img, t, x as int, y as int));
            lemma_justified_reachable(*img, t, x as int, y as int);
        }
        output.put_pixel(x, y, Pixel { r: pixel.r, g: pixel.g, b: pixel.b, a: 0 });
        let ghost q_mid = queue@;
        enqueue_neighbors(&mut queue, x, y, width, height);
        proof {
            assert forall|i2: int|
                0 <= i2 < queue@.len() implies img.in_bounds((#[trigger] queue@[i2]).0 as int,
                queue@[i2].1 as int) && enqueue_justified(*img, t, queue@[i2].0 as int,
                queue@[i2].1 as int) by {
                if i2 < q_mid.len() {
                    assert(queue@[i2] == q_mid[i2]);
                    assert(q_mid[i2] == q_pre[i2 + 1]);
                } else {
                    assert(adjacent(x as int, y as int, queue@[i2].0 as int, queue@[i2].1 as int));
                }
            }
            assert forall|c: int, d: int|
                img.in_bounds(c, d) && !(c == x as int && d == y as int) && queued(q_pre, c, d)
                    implies queued(queue@, c, d) by {
                lemma_queued_after_pop(q_pre, c, d);
                lemma_queued_prefix_preserved(q_mid, queue@, c, d);
            }
            assert forall|a: int, b: int| #[trigger] on_border(*img, a, b) implies covered(
                *img,
                visited@,
                queue@,
                a,
                b,
            ) by {
                lemma_covered_step(
                    *img,
                    v_pre,
                    visited@,
                    q_pre,
                    queue@,
                    x as int,
                    y as int,
                    a,
                    b,
                );
            }
            assert forall|a: int, b: int|
                img.in_bounds(a, b) && #[trigger] seen(*img, visited@, a, b) && removable(
                    *img,
                    t,
                    a,
                    b,
                ) implies neighbors_covered(*img, visited@, queue@, a, b) by {
                if a == x as int && b == y as int {
                    assert(covered(*img, visited@, queue@, a - 1, b) || !(a > 0));
                    assert(covered(*img, visited@, queue@, a + 1, b) || !(a + 1 < img.width));
                    assert(covered(*img, visited@, queue@, a, b - 1) || !(b > 0));
                    assert(covered(*img, visited@, queue@, a, b + 1) || !(b + 1 < img.height));
                } else {
                    assert(seen(*img, v_pre, a, b));
                    if a > 0 {
                        lemma_covered_step(
                            *img,
                            v_pre,
                            visited@,
                            q_pre,
                            queue@,
                            x as int,
                            y as int,
                            a - 1,
                            b,
                        );
                    }
                    if a + 1 < img.width {
                        lemma_covered_step(
                            *img,
                            v_pre,
                            visited@,
                            q_pre,
                            queue@,
                            x as int,
                            y as int,
                            a + 1,
                            b,
                        );
                    }
                    if b > 0 {
                        lemma_covered_step(
                            *img,
                            v_pre,
                            visited@,
                            q_pre,
                            queue@,
                            x as int,
                            y as int,
                            a,
                            b - 1,
                        );
                    }
                    if b + 1 < img.height {
                        lemma_covered_step(
                            *img,
                            v_pre,
                            visited@,
                            q_pre,
                            queue@,
                            x as int,
                            y as int,
                            a,
                            b + 1,
                        );
                    }
                }
            }
        }
    }

    // The queue has drained: the visited grid is closed under the step rule,
    // so it marks exactly what the chains from the border can reach.
    proof {
        assert(queue@ =~= Seq::<(usize, usize)>::empty());
        assert forall|a: int, b: int| img.in_bounds(a, b) implies #[trigger] output.pixel(a, b)
            == (if reachable(*img, t, a, b) {
            clear_alpha(img.pixel(a, b))
        } else {
            img.pixel(a, b)
        }) by {
            if reachable(*img, t, a, b) {
                let p = choose|p: Seq<(int, int)>|
                    #[trigger] fill_path(*img, t, p) && p.last() == (a, b);
                lemma_closed_grid_covers_paths(*img, t, visited@, p);
                lemma_reachable_removable(*img, t, a, b);
                assert(seen(*img, visited@, a, b));
            } else {
                if seen(*img, visited@, a, b) && removable(*img, t, a, b) {
                    assert(reachable(*img, t, a, b));
                }
            }
        }
    }
    output
}

/// Whether a buffer may enter the fill: its dimensions are positive and it
/// holds one pixel per coordinate.
pub open spec fn fillable(img: Image) -> bool {
    img.wf() && img.width >= 1 && img.height >= 1
}

/// Runs the fill after checking the buffer: a zero-sized or malformed image
/// is rejected before the traversal starts, every other image is filled.
pub fn try_remove_background(img: &Image, edge_threshold: u8) -> (out: Option<Image>)
    ensures
        match out {
            Some(o) => fillable(*img) && fill_output(*img, edge_threshold, o),
            None => !fillable(*img),
        },
{
    // Reading the length bounds the pixel count by a machine word.
    let n = img.pixels.len();
    if img.width == 0 || img.height == 0 {
        return None;
    }
    let total = match img.width.checked_mul(img.height) {
        Some(t) => t,
        None => {
            return None;
        },
    };
    if n != total {
        return None;
    }
    Some(remove_background(img, edge_threshold))
}

} // verus!
