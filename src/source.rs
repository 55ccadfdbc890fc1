//! Preparing series for rendering: noisy synthetic values kept in the chart, ingested
//! values rescaled against their global range, and irregular timestamps
//! mapped into pixel columns through a query window.
use vstd::prelude::*;
use crate::error::RenderError;

verus! {

/// `v` limited to `[lo, hi]`.
pub open spec fn clamp(v: int, lo: int, hi: int) -> int {
    if v < lo {
        lo
    } else if v > hi {
        hi
    } else {
        v
    }
}

/// Limits each value of a noisy synthetic series to the chart's rows `[0, height]`.
pub fn clamp_rows(values: &Vec<i64>, height: u32) -> (r: Vec<i64>)
    ensures
        r.len() == values.len(),
        forall|i: int| 0 <= i < r.len() ==> #[trigger] r[i] == clamp(values[i] as int, 0, height as int),
{
    let mut r: Vec<i64> = Vec::new();
    let mut i: usize = 0;
    while i < values.len()
        invariant
            i <= values.len(),
            r.len() == i,
            forall|j: int| 0 <= j < i ==> #[trigger] r[j] == clamp(values[j] as int, 0, height as int),
        decreases values.len() - i,
    {
        let v = values[i];
        let c: i64 = if v < 0 {
            0
        } else if v > height as i64 {
            height as i64
        } else {
            v
        };
        r.push(c);
        i = i + 1;
    }
    r
}

/// Whether `lo` and `hi` are the smallest and the largest value over all series.
pub open spec fn is_global_range(series: Seq<Vec<i64>>, lo: i64, hi: i64) -> bool {
    &&& forall|i: int, j: int|
        0 <= i < series.len() && 0 <= j < series[i].len() ==> lo <= #[trigger] series[i][j] <= hi
    &&& exists|i: int, j: int| 0 <= i < series.len() && 0 <= j < series[i].len() && series[i][j] == lo
    &&& exists|i: int, j: int| 0 <= i < series.len() && 0 <= j < series[i].len() && series[i][j] == hi
}

/// The smallest and the largest value over all series, or `None` when they hold no value.
pub fn global_range(series: &Vec<Vec<i64>>) -> (r: Option<(i64, i64)>)
    ensures
        r is None <==> forall|i: int| 0 <= i < series.len() ==> #[trigger] series[i].len() == 0,
        r matches Some((lo, hi)) ==> is_global_range(series@, lo, hi),
{
    let mut found = false;
    let mut lo: i64 = 0;
    let mut hi: i64 = 0;
    let mut i: usize = 0;
    while i < series.len()
        invariant
            i <= series.len(),
            !found <==> forall|a: int| 0 <= a < i ==> #[trigger] series[a].len() == 0,
            found ==> is_global_range(series@.take(i as int), lo, hi),
        decreases series.len() - i,
    {
        let s = &series[i];
        let ghost pre = series@.take(i as int);
        let ghost cur = series@.take(i as int + 1);
        proof {
            assert forall|a: int| 0 <= a < i implies #[trigger] cur[a] == pre[a] by {}
            assert(cur[i as int] == series[i as int]);
        }
        let mut j: usize = 0;
        while j < s.len()
            invariant
                s == series[i as int],
                i < series.len(),
                j <= s.len(),
                pre == series@.take(i as int),
                cur == series@.take(i as int + 1),
                forall|a: int| 0 <= a < i ==> #[trigger] cur[a] == pre[a],
                cur[i as int] == s,
                !found ==> forall|a: int| 0 <= a < i ==> #[trigger] series[a].len() == 0,
                !found ==> j == 0,
                found ==> forall|a: int, b: int|
                    0 <= a <= i && 0 <= b < cur[a].len() && (a < i || b < j) ==> lo <= #[trigger] cur[a][b] <= hi,
                found ==> exists|a: int, b: int|
                    0 <= a <= i && 0 <= b < cur[a].len() && (a < i || b < j) && cur[a][b] == lo,
                found ==> exists|a: int, b: int|
                    0 <= a <= i && 0 <= b < cur[a].len() && (a < i || b < j) && cur[a][b] == hi,
                found && j == 0 ==> is_global_range(pre, lo, hi),
            decreases s.len() - j,
        {
            let v = s[j];
            proof {
                if found && j == 0 {
                    let (a1, b1) = choose|a: int, b: int|
                        0 <= a < pre.len() && 0 <= b < pre[a].len() && pre[a][b] == lo;
                    let (a2, b2) = choose|a: int, b: int|
                        0 <= a < pre.len() && 0 <= b < pre[a].len() && pre[a][b] == hi;
                    assert(cur[a1][b1] == lo);
                    assert(cur[a2][b2] == hi);
                }
            }
            if !found {
                lo = v;
                hi = v;
                found = true;
                proof {
                    assert(cur[i as int][j as int] == v);
                }
            } else {
                if v < lo {
                    lo = v;
                    proof {
                        assert(cur[i as int][j as int] == v);
                    }
                }
                if v > hi {
                    hi = v;
                    proof {
                        assert(cur[i as int][j as int] == v);
                    }
                }
            }
            j = j + 1;
        }
        proof {
            if found {
                assert forall|a: int, b: int|
                    0 <= a < cur.len() && 0 <= b < cur[a].len() implies lo <= #[trigger] cur[a][b] <= hi by {}
            } else {
                assert(s.len() == 0);
            }
        }
        i = i + 1;
    }
    proof {
        assert(series@.take(series.len() as int) =~= series@);
    }
    if found {
        Some((lo, hi))
    } else {
        None
    }
}

/// A raw value rescaled from the range `[min, max]` into `[0, height]`,
/// rounded down; every value of a range of one value maps to 0.
pub open spec fn scaled_value(v: int, min: int, max: int, height: int) -> int {
    if max == min {
        0
    } else {
        (v - min) * height / (max - min)
    }
}

/// Rescales each raw value from the range `[min, max]` into `[0, height]`.
pub fn scale_values(raw: &Vec<i64>, min: i64, max: i64, height: u32) -> (r: Vec<i64>)
    requires
        min <= max,
        forall|i: int| 0 <= i < raw.len() ==> min <= #[trigger] raw[i] <= max,
    ensures
        r.len() == raw.len(),
        forall|i: int|
            0 <= i < r.len() ==> #[trigger] r[i] == scaled_value(
                raw[i] as int,
                min as int,
                max as int,
                height as int,
            ) && 0 <= r[i] <= height,
{
    let mut r: Vec<i64> = Vec::new();
    let mut i: usize = 0;
    while i < raw.len()
        invariant
            min <= max,
            forall|k: int| 0 <= k < raw.len() ==> min <= #[trigger] raw[k] <= max,
            i <= raw.len(),
            r.len() == i,
            forall|k: int|
                0 <= k < i ==> #[trigger] r[k] == scaled_value(
                    raw[k] as int,
                    min as int,
                    max as int,
                    height as int,
                ) && 0 <= r[k] <= height,
        decreases raw.len() - i,
    {
        let v = raw[i];
        let s: i64 = if max == min {
            0
        } else {
            let d: i128 = v as i128 - min as i128;
            let den: i128 = max as i128 - min as i128;
            proof {
                assert(0 <= d * height <= den * height) by (nonlinear_arith)
                    requires
                        0 <= d <= den,
                        0 <= height,
                ;
                assert(den * height <= 0x1_0000_0000_0000_0000 * 0x1_0000_0000) by (nonlinear_arith)
                    requires
                        0 <= den <= 0x1_0000_0000_0000_0000,
                        0 <= height <= 0x1_0000_0000,
                ;
            }
            let num: i128 = d * height as i128;
            proof {
                assert(num / den <= height) by (nonlinear_arith)
                    requires
                        0 <= num <= den * height,
                        0 < den,
                ;
                assert(0 <= num / den) by (nonlinear_arith)
                    requires
                        0 <= num,
                        0 < den,
                ;
            }
            (num / den) as i64
        };
        r.push(s);
        i = i + 1;
    }
    r
}

/// The first `needed` values of `raw`, or `TooFewPoints` when it holds fewer;
/// `source` names the source in the error.
pub fn take_points(raw: &Vec<i64>, needed: usize, source: usize) -> (r: Result<Vec<i64>, RenderError>)
    ensures
        raw.len() < needed <==> r == Err::<Vec<i64>, RenderError>(
            RenderError::TooFewPoints { source, found: raw.len(), needed },
        ),
        r is Ok <==> raw.len() >= needed,
        r matches Ok(v) ==> v@ == raw@.take(needed as int),
{
    if raw.len() < needed {
        return Err(RenderError::TooFewPoints { source, found: raw.len(), needed });
    }
    let mut v: Vec<i64> = Vec::new();
    let mut i: usize = 0;
    while i < needed
        invariant
            needed <= raw.len(),
            i <= needed,
            v@ == raw@.take(i as int),
        decreases needed - i,
    {
        v.push(raw[i]);
        proof {
            assert(raw@.take(i as int + 1) =~= raw@.take(i as int).push(raw[i as int]));
        }
        i = i + 1;
    }
    Ok(v)
}

/// The window end snapped outward so that the window spans a whole number of
/// `2 * width` steps.
pub open spec fn snapped_end(start: int, end: int, width: int) -> int {
    let step = 2 * width;
    (end - start + step - 1) / step * step + start
}

/// The query window `[start, end]` that maps timestamps onto pixel columns.
#[derive(Clone, Copy, PartialEq, Eq, Structural, Debug)]
pub struct QueryWindow {
    pub start: i64,
    pub end: i64,
}

impl QueryWindow {
    /// The window from `tqs` to `tqe`, its end snapped outward so that it
    /// spans a whole number of `2 * width` steps. Fails when `tqe <= tqs`,
    /// when `width` is zero, or when the snapped end does not fit an `i64`.
    pub fn new(tqs: i64, tqe: i64, width: u32) -> (r: Result<QueryWindow, RenderError>)
        ensures
            (tqs < tqe && width > 0 && snapped_end(tqs as int, tqe as int, width as int)
                <= i64::MAX) <==> r is Ok,
            r is Err ==> r == Err::<QueryWindow, RenderError>(RenderError::BadQueryWindow),
            r matches Ok(w) ==> w.start == tqs && w.end == snapped_end(
                tqs as int,
                tqe as int,
                width as int,
            ) && w.start < w.end,
    {
        if tqe <= tqs || width == 0 {
            return Err(RenderError::BadQueryWindow);
        }
        let step: i128 = 2 * width as i128;
        let span: i128 = tqe as i128 - tqs as i128;
        proof {
            let sp = span as int;
            let st = step as int;
            let q = (sp + st - 1) / st;
            assert(0 < q <= sp + st - 1) by (nonlinear_arith)
                requires
                    sp >= 1,
                    st >= 2,
                    q == (sp + st - 1) / st,
            ;
            assert(q * st <= (sp + st - 1) * 0x2_0000_0000) by (nonlinear_arith)
                requires
                    0 < q <= sp + st - 1,
                    2 <= st <= 0x2_0000_0000,
            ;
            assert(q * st >= sp) by (nonlinear_arith)
                requires
                    q == (sp + st - 1) / st,
                    st >= 2,
                    sp >= 1,
            ;
        }
        let end: i128 = (span + step - 1) / step * step + tqs as i128;
        if end > i64::MAX as i128 {
            return Err(RenderError::BadQueryWindow);
        }
        Ok(QueryWindow { start: tqs, end: end as i64 })
    }
}

/// `v` limited to the range of `i32`.
pub open spec fn sat_i32(v: int) -> i32 {
    clamp(v, i32::MIN as int, i32::MAX as int) as i32
}

/// `v` limited to the range of `i32`, as a pixel coordinate.
pub fn saturate_i32(v: i128) -> (r: i32)
    ensures
        r == sat_i32(v as int),
{
    if v < i32::MIN as i128 {
        i32::MIN
    } else if v > i32::MAX as i128 {
        i32::MAX
    } else {
        v as i32
    }
}

/// The pixel column of timestamp `t`: its place in the window scaled to
/// `width` columns, rounded down.
pub open spec fn time_column(t: int, window: QueryWindow, width: int) -> i32 {
    sat_i32((t - window.start) * width / (window.end - window.start))
}

/// Maps each timestamp onto its pixel column.
pub fn time_columns(ts: &Vec<i64>, window: QueryWindow, width: u32) -> (r: Vec<i32>)
    requires
        window.start < window.end,
    ensures
        r.len() == ts.len(),
        forall|i: int| 0 <= i < r.len() ==> #[trigger] r[i] == time_column(ts[i] as int, window, width as int),
{
    let mut r: Vec<i32> = Vec::new();
    let den: i128 = window.end as i128 - window.start as i128;
    let mut i: usize = 0;
    while i < ts.len()
        invariant
            window.start < window.end,
            den == window.end - window.start,
            i <= ts.len(),
            r.len() == i,
            forall|k: int|
                0 <= k < i ==> #[trigger] r[k] == time_column(ts[k] as int, window, width as int),
        decreases ts.len() - i,
    {
        let d: i128 = ts[i] as i128 - window.start as i128;
        proof {
            assert(-0x1_0000_0000_0000_0000 * 0x1_0000_0000 <= d * width <= 0x1_0000_0000_0000_0000
                * 0x1_0000_0000) by (nonlinear_arith)
                requires
                    -0x1_0000_0000_0000_0000 <= d <= 0x1_0000_0000_0000_0000,
                    0 <= width <= 0x1_0000_0000,
            ;
        }
        let num: i128 = d * width as i128;
        // floor division, also for timestamps before the window
        let q: i128 = if num >= 0 {
            num / den
        } else {
            let m: i128 = -num;
            proof {
                let mi = m as int;
                let di = den as int;
                assert(0 <= (mi + di - 1) / di <= mi + di) by (nonlinear_arith)
                    requires
                        mi > 0,
                        di > 0,
                ;
                lemma_floor_of_negative(m as int, den as int);
            }
            -((m + den - 1) / den)
        };
        r.push(saturate_i32(q));
        i = i + 1;
    }
    r
}

proof fn lemma_floor_of_negative(m: int, d: int)
    requires
        m > 0,
        d > 0,
    ensures
        (-m) / d == -((m + d - 1) / d),
{
    let q = (m + d - 1) / d;
    let r = (m + d - 1) % d;
    assert(m + d - 1 == q * d + r && 0 <= r < d) by (nonlinear_arith)
        requires
            d > 0,
            q == (m + d - 1) / d,
            r == (m + d - 1) % d,
    ;
    // -m == -q * d + (d - 1 - r), with 0 <= d - 1 - r < d
    assert(-m == (-q) * d + (d - 1 - r)) by (nonlinear_arith)
        requires
            m + d - 1 == q * d + r,
    ;
    vstd::arithmetic::div_mod::lemma_fundamental_div_mod_converse(-m, d, -q, d - 1 - r);
}

} // verus!
