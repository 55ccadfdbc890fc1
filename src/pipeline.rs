//! One rendering run: series are turned into polylines in pixel space,
//! at full resolution or after M4 downsampling, rendered one by one and
//! folded into one aggregate density grid.
use vstd::prelude::*;
use crate::density::{lemma_series_density_bounds, run_series, sum_images, series_density, sat_add};
use crate::error::RenderError;
use crate::grid::{DensityGrid, cell, density_width, density_height, grid_wf};
use crate::m4::{m4_series, m4_value};
use crate::source::{
    QueryWindow, global_range, is_global_range, sat_i32, saturate_i32, scale_values, scaled_value,
    take_points, time_column, time_columns,
};

verus! {

/// The parameters of one run.
#[derive(Clone, Copy, PartialEq, Eq, Structural, Debug)]
pub struct RunConfig {
    /// How many raw points of a regular series fall in one pixel column.
    pub k: u32,
    pub width: u32,
    pub height: u32,
}

/// Whether a series is drawn from all its points or from its M4 reduction.
#[derive(Clone, Copy, PartialEq, Eq, Structural, Debug)]
pub enum Resolution {
    Full,
    M4,
}

impl RunConfig {
    /// A configuration the run can use: no zero dimension or column count,
    /// series of at least two points, so that they draw a line, and every
    /// buffer the run needs fits in memory.
    pub open spec fn valid(&self) -> bool {
        &&& self.k > 0
        &&& self.width > 0
        &&& self.height > 0
        &&& self.width * self.k >= 2
        &&& self.width * self.k <= usize::MAX
        &&& 4 * self.width <= usize::MAX
        &&& 3 * self.width * self.height <= usize::MAX
    }

    /// The configuration, or `BadConfig` when it is not valid.
    pub fn new(k: u32, width: u32, height: u32) -> (r: Result<RunConfig, RenderError>)
        ensures
            r matches Ok(c) ==> c.valid() && c == (RunConfig { k, width, height }),
            r is Err <==> !(RunConfig { k, width, height }).valid(),
            r is Err ==> r == Err::<RunConfig, RenderError>(RenderError::BadConfig),
    {
        if k == 0 || width == 0 || height == 0 {
            return Err(RenderError::BadConfig);
        }
        proof {
            let wi = width as int;
            let ki = k as int;
            let hi = height as int;
            assert(0 <= wi * ki <= 0xffff_ffff * 0xffff_ffff) by (nonlinear_arith)
                requires
                    0 <= wi <= 0xffff_ffff,
                    0 <= ki <= 0xffff_ffff,
            ;
            assert(0 <= 3 * wi * hi <= 3 * 0xffff_ffff * 0xffff_ffff) by (nonlinear_arith)
                requires
                    0 <= wi <= 0xffff_ffff,
                    0 <= hi <= 0xffff_ffff,
            ;
        }
        let wk: u64 = width as u64 * k as u64;
        let w4: u64 = 4 * width as u64;
        let wh3: u128 = 3 * (width as u128) * (height as u128);
        if wk < 2 || wk > usize::MAX as u64 || w4 > usize::MAX as u64 || wh3 > usize::MAX as u128 {
            return Err(RenderError::BadConfig);
        }
        Ok(RunConfig { k, width, height })
    }

    /// The number of points of each regular series: `k` per pixel column.
    pub fn series_len(&self) -> (r: usize)
        requires
            self.valid(),
        ensures
            r == self.width * self.k,
    {
        (self.width as usize) * (self.k as usize)
    }
}

/// A series placed in pixel space: point i is `(xs[i], ys[i])`.
#[derive(Clone, Debug)]
pub struct Polyline {
    pub xs: Vec<i32>,
    pub ys: Vec<i32>,
}

/// Pixel columns of a regular series of `n` points, `per_column` points per column.
pub open spec fn regular_xs(n: nat, per_column: nat) -> Seq<i32> {
    Seq::new(n, |j: int| sat_i32(j / (per_column as int)))
}

/// Pixel rows of chart-space values.
pub open spec fn chart_ys(values: Seq<i64>) -> Seq<i32> {
    Seq::new(values.len(), |j: int| sat_i32(values[j] as int))
}

/// Places a regular series: point j lies in pixel column `j / per_column`,
/// at the row of its value.
pub fn regular_polyline(values: &Vec<i64>, per_column: u32) -> (r: Polyline)
    requires
        per_column > 0,
    ensures
        r.xs@ == regular_xs(values.len() as nat, per_column as nat),
        r.ys@ == chart_ys(values@),
{
    let mut xs: Vec<i32> = Vec::new();
    let mut ys: Vec<i32> = Vec::new();
    let mut j: usize = 0;
    while j < values.len()
        invariant
            per_column > 0,
            j <= values.len(),
            xs@ == regular_xs(j as nat, per_column as nat),
            ys@ == chart_ys(values@.take(j as int)),
        decreases values.len() - j,
    {
        xs.push(saturate_i32((j / per_column as usize) as i128));
        ys.push(saturate_i32(values[j] as i128));
        proof {
            assert(xs@ =~= regular_xs(j as nat + 1, per_column as nat));
            assert(ys@ =~= chart_ys(values@.take(j as int + 1)));
        }
        j = j + 1;
    }
    proof {
        assert(values@.take(values.len() as int) =~= values@);
    }
    Polyline { xs, ys }
}

/// Places pre-computed pixel columns with the rows of chart-space values.
pub fn irregular_polyline(columns: Vec<i32>, values: &Vec<i64>) -> (r: Polyline)
    requires
        columns.len() == values.len(),
    ensures
        r.xs@ == columns@,
        r.ys@ == chart_ys(values@),
{
    let mut ys: Vec<i32> = Vec::new();
    let mut j: usize = 0;
    while j < values.len()
        invariant
            j <= values.len(),
            ys@ == chart_ys(values@.take(j as int)),
        decreases values.len() - j,
    {
        ys.push(saturate_i32(values[j] as i128));
        proof {
            assert(ys@ =~= chart_ys(values@.take(j as int + 1)));
        }
        j = j + 1;
    }
    proof {
        assert(values@.take(values.len() as int) =~= values@);
    }
    Polyline { xs: columns, ys }
}

/// The values a regular series is drawn from: all of them, or its M4
/// reduction, `4 * width` values in the order first, last, smallest, largest.
pub open spec fn plotted_values(values: Seq<i64>, width: nat, res: Resolution) -> Seq<i64> {
    match res {
        Resolution::Full => values,
        Resolution::M4 => Seq::new(4 * width, |j: int| m4_value(values, width, j)),
    }
}

/// Points per pixel column of the plotted values.
pub open spec fn points_per_column(cfg: RunConfig, res: Resolution) -> nat {
    match res {
        Resolution::Full => cfg.k as nat,
        Resolution::M4 => 4,
    }
}

/// The pixel columns of a regular series under `cfg` and `res`.
pub open spec fn regular_chart_xs(values: Seq<i64>, cfg: RunConfig, res: Resolution) -> Seq<i32> {
    regular_xs(plotted_values(values, cfg.width as nat, res).len(), points_per_column(cfg, res))
}

/// The pixel rows of a regular series under `cfg` and `res`.
pub open spec fn regular_chart_ys(values: Seq<i64>, cfg: RunConfig, res: Resolution) -> Seq<i32> {
    chart_ys(plotted_values(values, cfg.width as nat, res))
}

/// Places a regular series in pixel space: every point at full resolution,
/// or the M4 reduction with its four values of bucket i in column i.
pub fn regular_chart(values: &Vec<i64>, cfg: &RunConfig, res: Resolution) -> (r: Polyline)
    requires
        cfg.valid(),
        res == Resolution::M4 ==> cfg.width <= values.len(),
    ensures
        r.xs@ == regular_chart_xs(values@, *cfg, res),
        r.ys@ == regular_chart_ys(values@, *cfg, res),
{
    match res {
        Resolution::Full => regular_polyline(values, cfg.k),
        Resolution::M4 => {
            let m = m4_series(values, cfg.width);
            proof {
                assert(m@ =~= plotted_values(values@, cfg.width as nat, res));
            }
            regular_polyline(&m, 4)
        },
    }
}

/// Cell (x, y) of the aggregate of the first `n` polylines: each one's
/// density folded in turn into an empty grid.
pub open spec fn aggregate_density(lines: Seq<Polyline>, height: int, n: int, x: int, y: int) -> int
    decreases n,
{
    if n <= 0 {
        0
    } else {
        sat_add(
            series_density(lines[n - 1].xs@, lines[n - 1].ys@, height, x, y) as int,
            aggregate_density(lines, height, n - 1, x, y),
        )
    }
}

/// Sum of the densities of the first `n` polylines at (x, y).
pub open spec fn total_density(lines: Seq<Polyline>, height: int, n: int, x: int, y: int) -> int
    decreases n,
{
    if n <= 0 {
        0
    } else {
        series_density(lines[n - 1].xs@, lines[n - 1].ys@, height, x, y) + total_density(
            lines,
            height,
            n - 1,
            x,
            y,
        )
    }
}

/// The fold counts every series exactly once: the aggregate is the sum of
/// all densities, stopped at the largest `u64`.
pub proof fn lemma_aggregate_is_total(lines: Seq<Polyline>, height: int, n: int, x: int, y: int)
    requires
        0 <= n <= lines.len(),
    ensures
        aggregate_density(lines, height, n, x, y) == if total_density(lines, height, n, x, y)
            > u64::MAX {
            u64::MAX as int
        } else {
            total_density(lines, height, n, x, y)
        },
    decreases n,
{
    if n > 0 {
        lemma_aggregate_is_total(lines, height, n - 1, x, y);
        lemma_series_density_bounds(lines[n - 1].xs@, lines[n - 1].ys@, height, x, y);
    }
}

/// Accumulation is monotonic: folding in one more series never lowers a cell.
pub proof fn lemma_aggregate_monotonic(lines: Seq<Polyline>, height: int, n: int, x: int, y: int)
    requires
        0 <= n < lines.len(),
    ensures
        aggregate_density(lines, height, n, x, y) <= aggregate_density(lines, height, n + 1, x, y),
{
    lemma_aggregate_is_total(lines, height, n, x, y);
    lemma_aggregate_is_total(lines, height, n + 1, x, y);
    lemma_series_density_bounds(lines[n].xs@, lines[n].ys@, height, x, y);
}

/// Renders every polyline onto a `width` by `height` grid, normalizes its
/// columns, and folds it into the aggregate.
pub fn aggregate(lines: &Vec<Polyline>, width: u32, height: u32) -> (g: DensityGrid)
    requires
        forall|i: int|
            0 <= i < lines.len() ==> (#[trigger] lines[i]).xs.len() == lines[i].ys.len()
                && lines[i].xs.len() >= 2,
        width > 0,
        height > 0,
        width * height <= usize::MAX,
    ensures
        grid_wf(g),
        density_width(g) == width,
        density_height(g) == height,
        forall|x: int, y: int|
            0 <= x < width && 0 <= y < height ==> #[trigger] cell(g, x, y) == aggregate_density(
                lines@,
                height as int,
                lines.len() as int,
                x,
                y,
            ),
{
    let mut acc = DensityGrid::zeroed(width, height);
    let mut i: usize = 0;
    while i < lines.len()
        invariant
            forall|k: int|
                0 <= k < lines.len() ==> (#[trigger] lines[k]).xs.len() == lines[k].ys.len()
                    && lines[k].xs.len() >= 2,
            width > 0,
            height > 0,
            width * height <= usize::MAX,
            i <= lines.len(),
            grid_wf(acc),
            density_width(acc) == width,
            density_height(acc) == height,
            forall|x: int, y: int|
                0 <= x < width && 0 <= y < height ==> #[trigger] cell(acc, x, y) == aggregate_density(
                    lines@,
                    height as int,
                    i as int,
                    x,
                    y,
                ),
        decreases lines.len() - i,
    {
        let line = &lines[i];
        let g = run_series(line.xs.as_slice(), line.ys.as_slice(), width, height);
        acc = sum_images(g, acc);
        i = i + 1;
    }
    acc
}

/// The regular series placed in pixel space under `cfg` and `res`.
pub fn regular_charts(series: &Vec<Vec<i64>>, cfg: &RunConfig, res: Resolution) -> (r: Vec<Polyline>)
    requires
        cfg.valid(),
        forall|i: int| 0 <= i < series.len() ==> cfg.width * cfg.k <= (#[trigger] series[i]).len(),
    ensures
        r.len() == series.len(),
        forall|i: int|
            0 <= i < series.len() ==> (#[trigger] r[i]).xs@ == regular_chart_xs(series[i]@, *cfg, res)
                && r[i].ys@ == regular_chart_ys(series[i]@, *cfg, res) && r[i].xs.len()
                == r[i].ys.len() && r[i].xs.len() >= 2,
{
    proof {
        let wi = cfg.width as int;
        let ki = cfg.k as int;
        assert(wi <= wi * ki) by (nonlinear_arith)
            requires
                wi >= 1,
                ki >= 1,
        ;
    }
    let mut r: Vec<Polyline> = Vec::new();
    let mut i: usize = 0;
    while i < series.len()
        invariant
            cfg.valid(),
            forall|k: int| 0 <= k < series.len() ==> cfg.width * cfg.k <= (#[trigger] series[k]).len(),
            i <= series.len(),
            r.len() == i,
            forall|k: int|
                0 <= k < i ==> (#[trigger] r[k]).xs@ == regular_chart_xs(series[k]@, *cfg, res)
                    && r[k].ys@ == regular_chart_ys(series[k]@, *cfg, res) && r[k].xs.len()
                    == r[k].ys.len() && r[k].xs.len() >= 2,
            cfg.width <= cfg.width * cfg.k,
        decreases series.len() - i,
    {
        let line = regular_chart(&series[i], cfg, res);
        r.push(line);
        i = i + 1;
    }
    r
}

/// Cell (x, y) of the aggregate of the first `n` regular series under `cfg`
/// and `res`: each one's density folded in turn into an empty grid.
pub open spec fn regular_aggregate(
    series: Seq<Vec<i64>>,
    cfg: RunConfig,
    res: Resolution,
    n: int,
    x: int,
    y: int,
) -> int
    decreases n,
{
    if n <= 0 {
        0
    } else {
        sat_add(
            series_density(
                regular_chart_xs(series[n - 1]@, cfg, res),
                regular_chart_ys(series[n - 1]@, cfg, res),
                cfg.height as int,
                x,
                y,
            ) as int,
            regular_aggregate(series, cfg, res, n - 1, x, y),
        )
    }
}

proof fn lemma_regular_aggregate(
    lines: Seq<Polyline>,
    series: Seq<Vec<i64>>,
    cfg: RunConfig,
    res: Resolution,
    n: int,
    x: int,
    y: int,
)
    requires
        0 <= n <= series.len() == lines.len(),
        forall|i: int|
            0 <= i < series.len() ==> (#[trigger] lines[i]).xs@ == regular_chart_xs(series[i]@, cfg, res)
                && lines[i].ys@ == regular_chart_ys(series[i]@, cfg, res),
    ensures
        aggregate_density(lines, cfg.height as int, n, x, y) == regular_aggregate(series, cfg, res, n, x, y),
    decreases n,
{
    if n > 0 {
        lemma_regular_aggregate(lines, series, cfg, res, n - 1, x, y);
        assert(lines[n - 1].xs@ == regular_chart_xs(series[n - 1]@, cfg, res));
    }
}

/// Renders regular series at full resolution or after M4 downsampling:
/// the aggregate of their densities.
pub fn render_regular(series: &Vec<Vec<i64>>, cfg: &RunConfig, res: Resolution) -> (g: DensityGrid)
    requires
        cfg.valid(),
        forall|i: int| 0 <= i < series.len() ==> cfg.width * cfg.k <= (#[trigger] series[i]).len(),
    ensures
        grid_wf(g),
        density_width(g) == cfg.width,
        density_height(g) == cfg.height,
        forall|x: int, y: int|
            0 <= x < cfg.width && 0 <= y < cfg.height ==> #[trigger] cell(g, x, y) == regular_aggregate(
                series@,
                *cfg,
                res,
                series.len() as int,
                x,
                y,
            ),
{
    let lines = regular_charts(series, cfg, res);
    proof {
        assert(cfg.width * cfg.height <= usize::MAX) by (nonlinear_arith)
            requires
                3 * cfg.width * cfg.height <= usize::MAX,
        ;
    }
    let g = aggregate(&lines, cfg.width, cfg.height);
    proof {
        assert forall|x: int, y: int| 0 <= x < cfg.width && 0 <= y < cfg.height implies #[trigger] cell(
            g,
            x,
            y,
        ) == regular_aggregate(series@, *cfg, res, series.len() as int, x, y) by {
            lemma_regular_aggregate(lines@, series@, *cfg, res, series.len() as int, x, y);
        }
    }
    g
}

/// `lo` and `hi` are the smallest and the largest of the first `needed`
/// values over all sources.
pub open spec fn is_ingest_range(values: Seq<Vec<i64>>, needed: int, lo: i64, hi: i64) -> bool {
    &&& forall|i: int, j: int|
        0 <= i < values.len() && 0 <= j < needed ==> lo <= #[trigger] values[i][j] <= hi
    &&& exists|i: int, j: int| 0 <= i < values.len() && 0 <= j < needed && values[i][j] == lo
    &&& exists|i: int, j: int| 0 <= i < values.len() && 0 <= j < needed && values[i][j] == hi
}

/// The first `needed` values of a source rescaled from `[lo, hi]` into `[0, height]`.
pub open spec fn scaled_series(vals: Seq<i64>, needed: int, lo: i64, hi: i64, height: int) -> Seq<i64> {
    Seq::new(needed as nat, |j: int| scaled_value(vals[j] as int, lo as int, hi as int, height) as i64)
}

/// Whether `line` is ingested source `ts`, `vals` placed in pixel space:
/// at full resolution each point at the column of its timestamp, after M4
/// downsampling as a regular series of `4 * width` values.
pub open spec fn is_ingested_line(
    line: Polyline,
    ts: Seq<i64>,
    vals: Seq<i64>,
    lo: i64,
    hi: i64,
    cfg: RunConfig,
    res: Resolution,
    window: Option<QueryWindow>,
) -> bool {
    let needed = cfg.width * cfg.k;
    let scaled = scaled_series(vals, needed, lo, hi, cfg.height as int);
    match res {
        Resolution::Full => line.xs@ == Seq::new(
            needed as nat,
            |j: int| time_column(ts[j] as int, window.unwrap(), cfg.width as int),
        ) && line.ys@ == chart_ys(scaled),
        Resolution::M4 => line.xs@ == regular_chart_xs(scaled, cfg, res) && line.ys@
            == regular_chart_ys(scaled, cfg, res),
    }
}

proof fn lemma_ingest_range(values: Seq<Vec<i64>>, truncated: Seq<Vec<i64>>, needed: int, lo: i64, hi: i64)
    requires
        truncated.len() == values.len(),
        forall|i: int| 0 <= i < values.len() ==> (#[trigger] truncated[i])@ == values[i]@.take(needed),
        forall|i: int| 0 <= i < values.len() ==> needed <= (#[trigger] values[i]).len(),
        0 <= needed,
        is_global_range(truncated, lo, hi),
    ensures
        is_ingest_range(values, needed, lo, hi),
{
    assert forall|i: int, j: int| 0 <= i < values.len() && 0 <= j < needed implies lo <= #[trigger] values[i][j]
        <= hi by {
        assert(truncated[i]@ == values[i]@.take(needed));
        assert(truncated[i][j] == values[i][j]);
    }
    let (a1, b1) = choose|a: int, b: int|
        0 <= a < truncated.len() && 0 <= b < truncated[a].len() && truncated[a][b] == lo;
    assert(truncated[a1]@ == values[a1]@.take(needed));
    assert(values[a1][b1] == lo);
    let (a2, b2) = choose|a: int, b: int|
        0 <= a < truncated.len() && 0 <= b < truncated[a].len() && truncated[a][b] == hi;
    assert(truncated[a2]@ == values[a2]@.take(needed));
    assert(values[a2][b2] == hi);
}

/// Prepares ingested sources, each given as its timestamps and its values
/// row by row, for rendering: each source is cut to its first
/// `width * k` rows, values are rescaled into `[0, height]` against their
/// global range over all sources, and the series are placed in pixel space,
/// at full resolution through the query window, or after M4 downsampling.
///
/// Fails with `BadQueryWindow` when full resolution has no query window,
/// else with `TooFewPoints` for the first source with fewer rows than needed.
pub fn prepare_ingested(
    timestamps: &Vec<Vec<i64>>,
    values: &Vec<Vec<i64>>,
    cfg: &RunConfig,
    res: Resolution,
    window: Option<QueryWindow>,
) -> (r: Result<Vec<Polyline>, RenderError>)
    requires
        cfg.valid(),
        timestamps.len() == values.len(),
        forall|i: int| 0 <= i < values.len() ==> (#[trigger] timestamps[i]).len() == values[i].len(),
        window matches Some(w) ==> w.start < w.end,
    ensures
        res == Resolution::Full && window is None ==> r == Err::<Vec<Polyline>, RenderError>(
            RenderError::BadQueryWindow,
        ),
        !(res == Resolution::Full && window is None) ==> ((exists|i: int|
            0 <= i < values.len() && #[trigger] values[i].len() < cfg.width * cfg.k) <==> r is Err),
        !(res == Resolution::Full && window is None) ==> (r matches Err(e) ==> exists|i: int|
            0 <= i < values.len() && #[trigger] values[i].len() < cfg.width * cfg.k && (forall|i2: int|
                0 <= i2 < i ==> cfg.width * cfg.k <= #[trigger] values[i2].len()) && e
                == RenderError::TooFewPoints {
                source: i as usize,
                found: values[i].len(),
                needed: (cfg.width * cfg.k) as usize,
            }),
        r matches Ok(lines) ==> lines.len() == values.len() && (values.len() > 0 ==> exists|
            lo: i64,
            hi: i64,
        |
            #[trigger] is_ingest_range(values@, cfg.width * cfg.k, lo, hi) && forall|i: int|
                0 <= i < values.len() ==> is_ingested_line(
                    #[trigger] lines[i],
                    timestamps[i]@,
                    values[i]@,
                    lo,
                    hi,
                    *cfg,
                    res,
                    window,
                ) && lines[i].xs.len() == lines[i].ys.len()),
{
    if res == Resolution::Full && window.is_none() {
        return Err(RenderError::BadQueryWindow);
    }
    let needed = cfg.series_len();
    proof {
        let wi = cfg.width as int;
        let ki = cfg.k as int;
        assert(wi <= wi * ki) by (nonlinear_arith)
            requires
                wi >= 1,
                ki >= 1,
        ;
    }
    let n = values.len();
    let mut tv: Vec<Vec<i64>> = Vec::new();
    let mut tt: Vec<Vec<i64>> = Vec::new();
    let mut i: usize = 0;
    while i < n
        invariant
            n == values.len() == timestamps.len(),
            forall|k: int| 0 <= k < n ==> (#[trigger] timestamps[k]).len() == values[k].len(),
            needed == cfg.width * cfg.k,
            !(res == Resolution::Full && window is None),
            i <= n,
            tv.len() == i,
            tt.len() == i,
            forall|k: int| 0 <= k < i ==> needed <= (#[trigger] values[k]).len(),
            forall|k: int| 0 <= k < i ==> (#[trigger] tv[k])@ == values[k]@.take(needed as int),
            forall|k: int| 0 <= k < i ==> (#[trigger] tt[k])@ == timestamps[k]@.take(needed as int),
        decreases n - i,
    {
        let v = take_points(&values[i], needed, i);
        match v {
            Err(e) => {
                proof {
                    assert(values[i as int].len() < needed);
                }
                return Err(e);
            },
            Ok(v) => {
                let t = take_points(&timestamps[i], needed, i);
                match t {
                    Err(e) => {
                        return Err(e);
                    },
                    Ok(t) => {
                        tv.push(v);
                        tt.push(t);
                    },
                }
            },
        }
        i = i + 1;
    }
    let range = global_range(&tv);
    let mut lines: Vec<Polyline> = Vec::new();
    match range {
        None => {
            proof {
                if n > 0 {
                    assert(needed >= cfg.width >= 1);
                    assert(tv[0]@.len() == needed);
                    assert(tv[0].len() > 0);
                }
            }
            Ok(lines)
        },
        Some((lo, hi)) => {
            proof {
                lemma_ingest_range(values@, tv@, needed as int, lo, hi);
                let (a1, b1) = choose|a: int, b: int|
                    0 <= a < tv.len() && 0 <= b < tv[a].len() && tv[a][b] == lo;
                let (a2, b2) = choose|a: int, b: int|
                    0 <= a < tv.len() && 0 <= b < tv[a].len() && tv[a][b] == hi;
            }
            let mut i: usize = 0;
            while i < n
                invariant
                    n == values.len() == timestamps.len() == tv.len() == tt.len(),
                    cfg.valid(),
                    needed == cfg.width * cfg.k,
                    cfg.width <= needed,
                    res == Resolution::Full ==> window is Some,
                    window matches Some(w) ==> w.start < w.end,
                    is_global_range(tv@, lo, hi),
                    is_ingest_range(values@, needed as int, lo, hi),
                    forall|k: int| 0 <= k < n ==> (#[trigger] tv[k])@ == values[k]@.take(needed as int),
                    forall|k: int| 0 <= k < n ==> (#[trigger] tt[k])@ == timestamps[k]@.take(needed as int),
                    forall|k: int| 0 <= k < n ==> needed <= (#[trigger] values[k]).len(),
                    forall|k: int| 0 <= k < n ==> (#[trigger] timestamps[k]).len() == values[k].len(),
                    i <= n,
                    lines.len() == i,
                    forall|k: int|
                        0 <= k < i ==> is_ingested_line(
                            #[trigger] lines[k],
                            timestamps[k]@,
                            values[k]@,
                            lo,
                            hi,
                            *cfg,
                            res,
                            window,
                        ) && lines[k].xs.len() == lines[k].ys.len(),
                decreases n - i,
            {
                proof {
                    assert forall|j: int| 0 <= j < tv[i as int].len() implies lo <= #[trigger] tv[i as int][j] <= hi by {
                        assert(is_global_range(tv@, lo, hi));
                        assert(tv@[i as int][j] == tv[i as int][j]);
                    }
                    let (a1, b1) = choose|a: int, b: int|
                        0 <= a < tv.len() && 0 <= b < tv[a].len() && tv[a][b] == lo;
                    assert(lo <= hi);
                }
                let scaled = scale_values(&tv[i], lo, hi, cfg.height);
                proof {
                    assert(tv[i as int]@.len() == needed);
                    assert(tt[i as int]@.len() == needed);
                    assert(cfg.width <= needed);
                    assert(scaled@ =~= scaled_series(values[i as int]@, needed as int, lo, hi, cfg.height as int));
                }
                let line = match res {
                    Resolution::Full => {
                        let w = window.unwrap();
                        let cols = time_columns(&tt[i], w, cfg.width);
                        let l = irregular_polyline(cols, &scaled);
                        proof {
                            assert(l.xs@ =~= Seq::new(
                                needed as nat,
                                |j: int| time_column(timestamps[i as int][j] as int, window.unwrap(), cfg.width as int),
                            ));
                        }
                        l
                    },
                    Resolution::M4 => regular_chart(&scaled, cfg, Resolution::M4),
                };
                lines.push(line);
                i = i + 1;
            }
            Ok(lines)
        },
    }
}

} // verus!
