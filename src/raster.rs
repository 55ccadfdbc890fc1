//! Line rasterization: each segment of a polyline adds one unit of coverage
//! to every pixel that it passes through.
//!
//! A segment is stepped along its major axis, the one with the larger
//! extent; at each major coordinate it covers one pixel, whose minor
//! coordinate is the exact line position rounded half up away from the
//! segment's start (the Bresenham rule). Pixels outside the grid are skipped.
use vstd::prelude::*;
use crate::grid::{DensityGrid, cell, density_width, density_height, grid_wf, same_dims};

verus! {

/// The absolute value of `a`.
pub open spec fn abs(a: int) -> int {
    if a < 0 {
        -a
    } else {
        a
    }
}

/// The smaller of `a` and `b`.
pub open spec fn min(a: int, b: int) -> int {
    if a <= b {
        a
    } else {
        b
    }
}

/// The larger of `a` and `b`.
pub open spec fn max(a: int, b: int) -> int {
    if a >= b {
        a
    } else {
        b
    }
}

/// The minor coordinate of the pixel that the segment from `(a0, b0)` to
/// `(a1, b1)`, stepped along `a`, covers at major coordinate `a`.
pub open spec fn minor_at(a0: int, a1: int, b0: int, b1: int, a: int) -> int {
    let da = abs(a1 - a0);
    let db = abs(b1 - b0);
    let off = if da == 0 {
        0
    } else {
        (2 * abs(a - a0) * db + da) / (2 * da)
    };
    if b1 >= b0 {
        b0 + off
    } else {
        b0 - off
    }
}

/// Whether the segment from `(x0, y0)` to `(x1, y1)` covers pixel `(x, y)`.
pub open spec fn segment_covers(x0: int, y0: int, x1: int, y1: int, x: int, y: int) -> bool {
    if abs(x1 - x0) >= abs(y1 - y0) {
        min(x0, x1) <= x <= max(x0, x1) && y == minor_at(x0, x1, y0, y1, x)
    } else {
        min(y0, y1) <= y <= max(y0, y1) && x == minor_at(y0, y1, x0, x1, y)
    }
}

/// How many of the first `n` segments of the polyline through the points
/// `(ts[i], vs[i])` cover pixel `(x, y)`.
pub open spec fn coverage(ts: Seq<i32>, vs: Seq<i32>, n: int, x: int, y: int) -> nat
    decreases n,
{
    if n <= 0 {
        0
    } else {
        coverage(ts, vs, n - 1, x, y) + if segment_covers(
            ts[n - 1] as int,
            vs[n - 1] as int,
            ts[n] as int,
            vs[n] as int,
            x,
            y,
        ) {
            1nat
        } else {
            0nat
        }
    }
}

/// The coverage of pixel `(x, y)` by the whole polyline.
pub open spec fn series_coverage(ts: Seq<i32>, vs: Seq<i32>, x: int, y: int) -> nat {
    coverage(ts, vs, ts.len() - 1, x, y)
}

/// Each segment adds at most one unit to a pixel.
pub proof fn lemma_coverage_bound(ts: Seq<i32>, vs: Seq<i32>, n: int, x: int, y: int)
    requires
        0 <= n,
    ensures
        coverage(ts, vs, n, x, y) <= n,
    decreases n,
{
    if n > 0 {
        lemma_coverage_bound(ts, vs, n - 1, x, y);
    }
}

fn abs_diff(a: i32, b: i32) -> (r: i128)
    ensures
        r == abs(a - b),
{
    let d = a as i128 - b as i128;
    if d < 0 {
        -d
    } else {
        d
    }
}

/// The minor coordinate `minor_at(a0, a1, b0, b1, a)`, computed exactly.
fn minor_exec(a0: i32, a1: i32, b0: i32, b1: i32, a: i64) -> (r: i128)
    requires
        -0x1_0000_0000 <= a <= 0x1_0000_0000,
    ensures
        r == minor_at(a0 as int, a1 as int, b0 as int, b1 as int, a as int),
{
    let da = abs_diff(a1, a0);
    let db = abs_diff(b1, b0);
    let t: i128 = if (a as i128) < (a0 as i128) {
        a0 as i128 - a as i128
    } else {
        a as i128 - a0 as i128
    };
    let off: i128 = if da == 0 {
        0
    } else {
        assert(0 <= 2 * t * db <= 0x8_0000_0000 * 0x1_0000_0000) by (nonlinear_arith)
            requires
                0 <= t <= 0x4_0000_0000,
                0 <= db <= 0x1_0000_0000,
        ;
        let num = 2 * t * db + da;
        let den = 2 * da;
        assert(0 <= num / den <= num) by (nonlinear_arith)
            requires
                0 <= num,
                1 <= den,
        ;
        num / den
    };
    if b1 >= b0 {
        b0 as i128 + off
    } else {
        b0 as i128 - off
    }
}

/// Adds one unit to every cell of `g` that the segment from `(x0, y0)` to
/// `(x1, y1)` covers.
pub fn draw_segment(g: &mut DensityGrid, x0: i32, y0: i32, x1: i32, y1: i32)
    requires
        grid_wf(*old(g)),
        forall|x: int, y: int|
            0 <= x < density_width(*old(g)) && 0 <= y < density_height(*old(g)) ==> #[trigger] cell(
                *old(g),
                x,
                y,
            ) < u64::MAX,
    ensures
        grid_wf(*final(g)),
        same_dims(*final(g), *old(g)),
        forall|x: int, y: int|
            0 <= x < density_width(*old(g)) && 0 <= y < density_height(*old(g)) ==> #[trigger] cell(
                *final(g),
                x,
                y,
            ) == cell(*old(g), x, y) + if segment_covers(
                x0 as int,
                y0 as int,
                x1 as int,
                y1 as int,
                x,
                y,
            ) {
                1int
            } else {
                0int
            },
{
    let w = g.width();
    let h = g.height();
    let ghost g0 = *g;
    let x_major = abs_diff(x1, x0) >= abs_diff(y1, y0);
    // the span of the major axis that lies inside the grid
    let (lo, hi): (i64, i64) = if x_major {
        (
            if x0 < x1 { x0 as i64 } else { x1 as i64 },
            if x0 < x1 { x1 as i64 } else { x0 as i64 },
        )
    } else {
        (
            if y0 < y1 { y0 as i64 } else { y1 as i64 },
            if y0 < y1 { y1 as i64 } else { y0 as i64 },
        )
    };
    let extent: i64 = if x_major { w as i64 } else { h as i64 };
    let lo: i64 = if lo < 0 { 0 } else { lo };
    let hi: i64 = if hi > extent - 1 { extent - 1 } else { hi };
    let mut a: i64 = lo;
    while a <= hi
        invariant
            grid_wf(*g),
            same_dims(*g, g0),
            w == density_width(g0),
            h == density_height(g0),
            x_major == (abs(x1 - x0) >= abs(y1 - y0)),
            lo >= 0,
            lo <= a,
            a <= hi + 1 || a == lo,
            hi < extent,
            extent == if x_major { w as i64 } else { h as i64 },
            x_major ==> lo >= min(x0 as int, x1 as int) && hi <= max(x0 as int, x1 as int),
            !x_major ==> lo >= min(y0 as int, y1 as int) && hi <= max(y0 as int, y1 as int),
            forall|x: int, y: int|
                0 <= x < w && 0 <= y < h ==> #[trigger] cell(g0, x, y) < u64::MAX,
            forall|x: int, y: int|
                0 <= x < w && 0 <= y < h ==> #[trigger] cell(*g, x, y) == cell(g0, x, y) + if (
                x_major && x < a || !x_major && y < a) && segment_covers(
                    x0 as int,
                    y0 as int,
                    x1 as int,
                    y1 as int,
                    x,
                    y,
                ) {
                    1int
                } else {
                    0int
                },
        decreases hi + 1 - a,
    {
        let b = if x_major {
            minor_exec(x0, x1, y0, y1, a)
        } else {
            minor_exec(y0, y1, x0, x1, a)
        };
        let limit: i128 = if x_major { h as i128 } else { w as i128 };
        if 0 <= b && b < limit {
            let (px, py): (u32, u32) = if x_major { (a as u32, b as u32) } else { (b as u32, a as u32) };
            let v = g.get(px, py);
            g.set(px, py, v + 1);
        }
        a = a + 1;
    }
}

/// Rasterizes the polyline through the points `(series_t[i], series_v[i])`
/// onto a fresh `width` by `height` grid: each cell counts the segments that
/// cover it.
pub fn rasterize(series_t: &[i32], series_v: &[i32], width: u32, height: u32) -> (g: DensityGrid)
    requires
        series_t.len() == series_v.len(),
        width * height <= usize::MAX,
    ensures
        grid_wf(g),
        density_width(g) == width,
        density_height(g) == height,
        forall|x: int, y: int|
            0 <= x < width && 0 <= y < height ==> #[trigger] cell(g, x, y) == series_coverage(
                series_t@,
                series_v@,
                x,
                y,
            ),
{
    let mut g = DensityGrid::zeroed(width, height);
    let n = series_t.len();
    let mut i: usize = 0;
    while i + 1 < n
        invariant
            n == series_t.len() == series_v.len(),
            i == 0 || i < n,
            grid_wf(g),
            density_width(g) == width,
            density_height(g) == height,
            forall|x: int, y: int|
                0 <= x < width && 0 <= y < height ==> #[trigger] cell(g, x, y) == coverage(
                    series_t@,
                    series_v@,
                    i as int,
                    x,
                    y,
                ),
        decreases n - i,
    {
        proof {
            assert forall|x: int, y: int|
                0 <= x < width && 0 <= y < height implies #[trigger] cell(g, x, y) < u64::MAX by {
                lemma_coverage_bound(series_t@, series_v@, i as int, x, y);
            }
        }
        draw_segment(&mut g, series_t[i], series_v[i], series_t[i + 1], series_v[i + 1]);
        i = i + 1;
    }
    proof {
        assert forall|x: int, y: int|
            0 <= x < width && 0 <= y < height implies #[trigger] cell(g, x, y) == series_coverage(
            series_t@,
            series_v@,
            x,
            y,
        ) by {
            if n == 0 {
                assert(coverage(series_t@, series_v@, -1, x, y) == 0);
                assert(coverage(series_t@, series_v@, 0, x, y) == 0);
            }
        }
    }
    g
}

} // verus!
