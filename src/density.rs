//! Per-series density (column normalization of raw coverage) and the
//! reduction that sums the densities of many series.
//!
//! Density is fixed-point: `DENSITY_ONE` stands for one unit. A column that
//! any line passes through holds, after normalization, cells that sum to
//! exactly `DENSITY_ONE`: the column's running total is rescaled and rounded
//! down, and each cell takes the step of the rounded total at its row, so
//! each cell is within one unit of its exact share.
use vstd::prelude::*;
use crate::grid::{DensityGrid, cell, density_width, density_height, grid_wf, same_dims};
use crate::raster::{rasterize, series_coverage};

verus! {

/// The fixed-point value of one unit of density.
pub const DENSITY_ONE: u64 = 4294967296;

/// The sum of the first `n` cells of column `x`.
pub open spec fn column_sum(g: DensityGrid, x: int, n: int) -> nat
    decreases n,
{
    if n <= 0 {
        0
    } else {
        column_sum(g, x, n - 1) + cell(g, x, n - 1) as nat
    }
}

/// The share of a column, of total `s`, held by its rows before a row
/// whose running total is `prefix`, rescaled to `DENSITY_ONE` and rounded
/// down; a column of total zero has no share.
pub open spec fn scaled_prefix(prefix: nat, s: nat) -> nat {
    if s == 0 {
        0
    } else {
        prefix * (DENSITY_ONE as nat) / s
    }
}

/// The cell (x, y) of `g` after column normalization: the step of the
/// rescaled running total of column `x` at row `y`.
pub open spec fn normalized_cell(g: DensityGrid, x: int, y: int) -> int {
    let s = column_sum(g, x, density_height(g) as int);
    scaled_prefix(column_sum(g, x, y + 1), s) - scaled_prefix(column_sum(g, x, y), s)
}

/// The sum of the first `n` normalized cells of column `x` of `g`.
pub open spec fn normalized_column_sum(g: DensityGrid, x: int, n: int) -> int
    decreases n,
{
    if n <= 0 {
        0
    } else {
        normalized_column_sum(g, x, n - 1) + normalized_cell(g, x, n - 1)
    }
}

/// The sum over the first `n` rows of column `x` of the coverage by a polyline.
pub open spec fn coverage_column_sum(ts: Seq<i32>, vs: Seq<i32>, x: int, n: int) -> nat
    decreases n,
{
    if n <= 0 {
        0
    } else {
        coverage_column_sum(ts, vs, x, n - 1) + series_coverage(ts, vs, x, n - 1)
    }
}

/// The normalized density of one series at pixel (x, y) of a grid `height`
/// rows high: the step at row `y` of the rescaled running total of the
/// coverage of column `x`.
pub open spec fn series_density(ts: Seq<i32>, vs: Seq<i32>, height: int, x: int, y: int) -> int {
    let s = coverage_column_sum(ts, vs, x, height);
    scaled_prefix(coverage_column_sum(ts, vs, x, y + 1), s) - scaled_prefix(
        coverage_column_sum(ts, vs, x, y),
        s,
    )
}

/// Addition that stops at the largest `u64`.
pub open spec fn sat_add(a: int, b: int) -> int {
    if a + b > u64::MAX {
        u64::MAX as int
    } else {
        a + b
    }
}

proof fn lemma_column_sum_monotonic(g: DensityGrid, x: int, a: int, b: int)
    requires
        0 <= a <= b,
    ensures
        column_sum(g, x, a) <= column_sum(g, x, b),
    decreases b - a,
{
    if a < b {
        lemma_column_sum_monotonic(g, x, a, b - 1);
    }
}

proof fn lemma_column_sum_bound(g: DensityGrid, x: int, n: int)
    requires
        0 <= n,
    ensures
        column_sum(g, x, n) <= n * (u64::MAX as int),
    decreases n,
{
    if n > 0 {
        lemma_column_sum_bound(g, x, n - 1);
    }
}

proof fn lemma_column_sum_coverage(g: DensityGrid, ts: Seq<i32>, vs: Seq<i32>, x: int, n: int)
    requires
        forall|y: int| 0 <= y < n ==> cell(g, x, y) == series_coverage(ts, vs, x, y),
    ensures
        column_sum(g, x, n) == coverage_column_sum(ts, vs, x, n),
    decreases n,
{
    if n > 0 {
        lemma_column_sum_coverage(g, ts, vs, x, n - 1);
    }
}

proof fn lemma_scaled_prefix_step(p: nat, q: nat, s: nat)
    requires
        p <= q <= s,
    ensures
        0 <= scaled_prefix(q, s) - scaled_prefix(p, s) <= DENSITY_ONE,
        s > 0 ==> scaled_prefix(s, s) == DENSITY_ONE,
{
    if s > 0 {
        let u = DENSITY_ONE as nat;
        assert(p * u / s <= q * u / s <= u) by (nonlinear_arith)
            requires
                p <= q <= s,
                0 < s,
        ;
        assert(s * u / s == u) by (nonlinear_arith)
            requires
                0 < s,
        ;
    }
}

/// Rescales every column of `g` so that its cells sum to one unit of
/// density; a column of zeros stays as it is.
pub fn normalize_columns(g: &mut DensityGrid)
    requires
        grid_wf(*old(g)),
    ensures
        grid_wf(*final(g)),
        same_dims(*final(g), *old(g)),
        forall|x: int, y: int|
            0 <= x < density_width(*old(g)) && 0 <= y < density_height(*old(g)) ==> #[trigger] cell(
                *final(g),
                x,
                y,
            ) == normalized_cell(*old(g), x, y),
{
    let w = g.width();
    let h = g.height();
    let ghost g0 = *g;
    let mut x: u32 = 0;
    while x < w
        invariant
            grid_wf(*g),
            same_dims(*g, g0),
            w == density_width(g0),
            h == density_height(g0),
            x <= w,
            forall|x2: int, y2: int|
                0 <= x2 < w && 0 <= y2 < h ==> #[trigger] cell(*g, x2, y2) == if x2 < x {
                    normalized_cell(g0, x2, y2) as int
                } else {
                    cell(g0, x2, y2) as int
                },
        decreases w - x,
    {
        let mut s: u128 = 0;
        let mut y: u32 = 0;
        while y < h
            invariant
                grid_wf(*g),
                same_dims(*g, g0),
                w == density_width(g0),
                h == density_height(g0),
                x < w,
                y <= h,
                s == column_sum(g0, x as int, y as int),
                forall|x2: int, y2: int|
                    0 <= x2 < w && 0 <= y2 < h ==> #[trigger] cell(*g, x2, y2) == if x2 < x {
                        normalized_cell(g0, x2, y2) as int
                    } else {
                        cell(g0, x2, y2) as int
                    },
            decreases h - y,
        {
            let c = g.get(x, y);
            proof {
                lemma_column_sum_bound(g0, x as int, y as int);
                assert(y * (u64::MAX as int) <= 0x1_0000_0000 * (u64::MAX as int)) by (nonlinear_arith)
                    requires
                        y <= 0x1_0000_0000,
                ;
            }
            s = s + c as u128;
            y = y + 1;
        }
        proof {
            lemma_column_sum_bound(g0, x as int, h as int);
            let si = s as int;
            assert(si * (DENSITY_ONE as int) <= 0xffff_ffff_ffff_ffff_ffff_ffff_ffff_ffff) by (nonlinear_arith)
                requires
                    0 <= si <= h * (u64::MAX as int),
                    h <= 0xffff_ffff,
            ;
        }
        let mut acc: u128 = 0;
        let mut prev: u128 = 0;
        let mut y: u32 = 0;
        while y < h
            invariant
                grid_wf(*g),
                same_dims(*g, g0),
                w == density_width(g0),
                h == density_height(g0),
                x < w,
                y <= h,
                s == column_sum(g0, x as int, h as int),
                s * (DENSITY_ONE as int) <= u128::MAX,
                acc == column_sum(g0, x as int, y as int),
                prev == scaled_prefix(acc as nat, s as nat),
                forall|x2: int, y2: int|
                    0 <= x2 < w && 0 <= y2 < h ==> #[trigger] cell(*g, x2, y2) == if x2 < x || (x2
                        == x && y2 < y) {
                        normalized_cell(g0, x2, y2)
                    } else {
                        cell(g0, x2, y2) as int
                    },
            decreases h - y,
        {
            let c = g.get(x, y);
            proof {
                lemma_column_sum_monotonic(g0, x as int, y as int + 1, h as int);
                lemma_column_sum_monotonic(g0, x as int, y as int, y as int + 1);
                lemma_scaled_prefix_step(acc as nat, (acc + c) as nat, s as nat);
            }
            let next: u128 = acc + c as u128;
            if s > 0 {
                proof {
                    let ni = next as int;
                    let si = s as int;
                    assert(ni * (DENSITY_ONE as int) <= si * (DENSITY_ONE as int)) by (nonlinear_arith)
                        requires
                            0 <= ni <= si,
                    ;
                }
                let cur: u128 = next * (DENSITY_ONE as u128) / s;
                g.set(x, y, (cur - prev) as u64);
                prev = cur;
            }
            acc = next;
            y = y + 1;
        }
        x = x + 1;
    }
}

/// Rasterizes the polyline through the points `(series_t[i], series_v[i])`
/// onto a `width` by `height` grid and normalizes its columns: each column
/// that the line passes through holds exactly one unit of density.
pub fn run_series(series_t: &[i32], series_v: &[i32], width: u32, height: u32) -> (g: DensityGrid)
    requires
        series_t.len() == series_v.len(),
        series_t.len() >= 2,
        width > 0,
        height > 0,
        width * height <= usize::MAX,
    ensures
        grid_wf(g),
        density_width(g) == width,
        density_height(g) == height,
        forall|x: int, y: int|
            0 <= x < width && 0 <= y < height ==> #[trigger] cell(g, x, y) == series_density(
                series_t@,
                series_v@,
                height as int,
                x,
                y,
            ),
{
    let mut g = rasterize(series_t, series_v, width, height);
    let ghost raw = g;
    normalize_columns(&mut g);
    proof {
        assert forall|x: int, y: int| 0 <= x < width && 0 <= y < height implies #[trigger] cell(
            g,
            x,
            y,
        ) == series_density(series_t@, series_v@, height as int, x, y) by {
            lemma_column_sum_coverage(raw, series_t@, series_v@, x, height as int);
            lemma_column_sum_coverage(raw, series_t@, series_v@, x, y + 1);
            lemma_column_sum_coverage(raw, series_t@, series_v@, x, y);
        }
    }
    g
}

/// Folds one grid into an aggregate of the same dimensions by cell-wise
/// addition, which stops at the largest `u64`.
pub fn sum_images(image: DensityGrid, aggregated: DensityGrid) -> (r: DensityGrid)
    requires
        grid_wf(image),
        grid_wf(aggregated),
        same_dims(image, aggregated),
    ensures
        grid_wf(r),
        same_dims(r, aggregated),
        forall|x: int, y: int|
            0 <= x < density_width(aggregated) && 0 <= y < density_height(aggregated)
                ==> #[trigger] cell(r, x, y) == sat_add(
                cell(image, x, y) as int,
                cell(aggregated, x, y) as int,
            ),
{
    let mut aggregated = aggregated;
    let ghost a0 = aggregated;
    let w = aggregated.width();
    let h = aggregated.height();
    let mut y: u32 = 0;
    while y < h
        invariant
            grid_wf(aggregated),
            same_dims(aggregated, a0),
            same_dims(image, a0),
            w == density_width(a0),
            h == density_height(a0),
            y <= h,
            forall|x2: int, y2: int|
                0 <= x2 < w && 0 <= y2 < h ==> #[trigger] cell(aggregated, x2, y2) == if y2 < y {
                    sat_add(cell(image, x2, y2) as int, cell(a0, x2, y2) as int)
                } else {
                    cell(a0, x2, y2) as int
                },
        decreases h - y,
    {
        let mut x: u32 = 0;
        while x < w
            invariant
                grid_wf(aggregated),
                same_dims(aggregated, a0),
                same_dims(image, a0),
                w == density_width(a0),
                h == density_height(a0),
                y < h,
                x <= w,
                forall|x2: int, y2: int|
                    0 <= x2 < w && 0 <= y2 < h ==> #[trigger] cell(aggregated, x2, y2) == if y2 < y
                        || (y2 == y && x2 < x) {
                        sat_add(cell(image, x2, y2) as int, cell(a0, x2, y2) as int)
                    } else {
                        cell(a0, x2, y2) as int
                    },
            decreases w - x,
        {
            let v = image.get(x, y);
            let a = aggregated.get(x, y);
            aggregated.set(x, y, a.saturating_add(v));
            x = x + 1;
        }
        y = y + 1;
    }
    aggregated
}

proof fn lemma_coverage_column_sum_monotonic(ts: Seq<i32>, vs: Seq<i32>, x: int, a: int, b: int)
    requires
        a <= b,
    ensures
        coverage_column_sum(ts, vs, x, a) <= coverage_column_sum(ts, vs, x, b),
    decreases b - a,
{
    if a < b {
        lemma_coverage_column_sum_monotonic(ts, vs, x, a, b - 1);
    }
}

/// The density of a series at a pixel is never negative, and within the
/// grid it is at most one unit.
pub proof fn lemma_series_density_bounds(ts: Seq<i32>, vs: Seq<i32>, height: int, x: int, y: int)
    ensures
        0 <= series_density(ts, vs, height, x, y),
        0 <= y < height ==> series_density(ts, vs, height, x, y) <= DENSITY_ONE,
{
    let s = coverage_column_sum(ts, vs, x, height);
    let p = coverage_column_sum(ts, vs, x, y);
    let q = coverage_column_sum(ts, vs, x, y + 1);
    lemma_coverage_column_sum_monotonic(ts, vs, x, y, y + 1);
    if 0 <= y < height {
        lemma_coverage_column_sum_monotonic(ts, vs, x, y + 1, height);
        lemma_scaled_prefix_step(p, q, s);
    } else if s > 0 {
        let u = DENSITY_ONE as nat;
        assert(p * u / s <= q * u / s) by (nonlinear_arith)
            requires
                p <= q,
                0 < s,
        ;
    }
}

proof fn lemma_floor_div(a: nat, s: nat)
    requires
        s > 0,
    ensures
        s * (a / s) <= a,
        s * (a / s) + s - 1 >= a,
{
    assert(s * (a / s) <= a && s * (a / s) + s - 1 >= a) by (nonlinear_arith)
        requires
            s > 0,
    ;
}

proof fn lemma_normalized_telescopes(g: DensityGrid, x: int, n: int)
    requires
        0 <= n,
    ensures
        normalized_column_sum(g, x, n) == scaled_prefix(
            column_sum(g, x, n),
            column_sum(g, x, density_height(g) as int),
        ),
    decreases n,
{
    if n > 0 {
        lemma_normalized_telescopes(g, x, n - 1);
    }
}

/// Column normalization: a column with a non-zero sum sums afterwards to
/// exactly one unit of density; a column that sums to zero stays all zero.
pub proof fn lemma_normalized_column(g: DensityGrid, x: int)
    requires
        0 <= x < density_width(g),
    ensures
        column_sum(g, x, density_height(g) as int) > 0 ==> normalized_column_sum(
            g,
            x,
            density_height(g) as int,
        ) == DENSITY_ONE,
        column_sum(g, x, density_height(g) as int) == 0 ==> forall|y: int|
            0 <= y < density_height(g) ==> #[trigger] normalized_cell(g, x, y) == 0,
{
    let h = density_height(g) as int;
    let s = column_sum(g, x, h);
    lemma_normalized_telescopes(g, x, h);
    lemma_scaled_prefix_step(s, s, s);
}

/// Column normalization: each normalized cell is within one unit of its
/// exact share `cell * DENSITY_ONE / column_sum` of the column.
pub proof fn lemma_normalized_cell_share(g: DensityGrid, x: int, y: int)
    requires
        0 <= y < density_height(g),
        column_sum(g, x, density_height(g) as int) > 0,
    ensures
        ({
            let s = column_sum(g, x, density_height(g) as int) as int;
            let c = cell(g, x, y) as int;
            let u = DENSITY_ONE as int;
            &&& c * u - s < normalized_cell(g, x, y) * s
            &&& normalized_cell(g, x, y) * s < c * u + s
        }),
{
    let s = column_sum(g, x, density_height(g) as int);
    let u = DENSITY_ONE as nat;
    let p = column_sum(g, x, y);
    let q = column_sum(g, x, y + 1);
    let c = cell(g, x, y) as nat;
    assert(q == p + c);
    lemma_floor_div(p * u, s);
    lemma_floor_div(q * u, s);
    let fp = p * u / s;
    let fq = q * u / s;
    assert(q * u == p * u + c * u) by (nonlinear_arith)
        requires
            q == p + c,
    ;
    assert((fq - fp) * s == s * fq - s * fp) by (nonlinear_arith);
}

/// The aggregate after folding `a` into an empty grid once, cell (x, y).
pub open spec fn fold_once(a: DensityGrid, x: int, y: int) -> int {
    sat_add(cell(a, x, y) as int, 0)
}

/// The aggregate after folding `a` into an empty grid twice, cell (x, y).
pub open spec fn fold_twice(a: DensityGrid, x: int, y: int) -> int {
    sat_add(cell(a, x, y) as int, fold_once(a, x, y))
}

/// Folding a grid into an empty aggregate twice gives exactly double the
/// single fold, cell by cell, unless the double passes the largest `u64`,
/// where it stops.
pub proof fn lemma_fold_twice(a: DensityGrid)
    ensures
        forall|x: int, y: int|
            #![trigger fold_twice(a, x, y)]
            fold_once(a, x, y) == cell(a, x, y) && fold_twice(a, x, y) == if 2 * fold_once(a, x, y)
                <= u64::MAX {
                2 * fold_once(a, x, y)
            } else {
                u64::MAX as int
            },
{
}

/// The aggregate after folding `p`, then `q`, then `r` into an empty grid, cell (x, y).
pub open spec fn fold_three(p: DensityGrid, q: DensityGrid, r: DensityGrid, x: int, y: int) -> int {
    sat_add(cell(r, x, y) as int, sat_add(cell(q, x, y) as int, sat_add(cell(p, x, y) as int, 0)))
}

/// Folding three grids into an empty aggregate gives the same cells in every order.
pub proof fn lemma_fold_order(a: DensityGrid, b: DensityGrid, c: DensityGrid)
    ensures
        forall|x: int, y: int|
            #![trigger fold_three(a, b, c, x, y)]
            fold_three(a, b, c, x, y) == fold_three(a, c, b, x, y) && fold_three(a, b, c, x, y)
                == fold_three(b, a, c, x, y) && fold_three(a, b, c, x, y) == fold_three(
                b,
                c,
                a,
                x,
                y,
            ) && fold_three(a, b, c, x, y) == fold_three(c, a, b, x, y) && fold_three(
                a,
                b,
                c,
                x,
                y,
            ) == fold_three(c, b, a, x, y),
{
}

} // verus!
