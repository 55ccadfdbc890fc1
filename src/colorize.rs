//! Colorization of an aggregate density grid: zero cells are white, and any
//! other cell takes the color stop nearest to its value relative to the
//! grid's largest value.
use vstd::prelude::*;
use crate::grid::{DensityGrid, cell, cell_index, density_cells, density_width, density_height, grid_wf, lemma_cell_index};

verus! {

/// An RGB color, one byte per channel.
pub type Rgb8 = (u8, u8, u8);

/// The color of cells that no series reaches.
pub const WHITE: Rgb8 = (255, 255, 255);

/// A color scale sampled at evenly spaced positions of `[0, 1]`: the first
/// stop is the color of 0, the last the color of 1.
#[derive(Clone, Debug)]
pub struct ColorScale {
    pub stops: Vec<Rgb8>,
}

impl ColorScale {
    /// The scale through `stops`; a scale needs at least two of them.
    pub fn new(stops: Vec<Rgb8>) -> (r: Option<ColorScale>)
        ensures
            r is Some <==> stops.len() >= 2,
            r matches Some(s) ==> s.stops@ == stops@,
    {
        if stops.len() >= 2 {
            Some(ColorScale { stops })
        } else {
            None
        }
    }
}

/// The largest of 0 and the values of `s`.
pub open spec fn cells_max(s: Seq<u64>) -> u64
    decreases s.len(),
{
    if s.len() == 0 {
        0
    } else {
        let m = cells_max(s.drop_last());
        if s.last() > m {
            s.last()
        } else {
            m
        }
    }
}

/// The largest cell of a grid, or 0 for a grid of zeros.
pub open spec fn grid_max(g: DensityGrid) -> u64 {
    cells_max(density_cells(g))
}

proof fn lemma_cells_max_ge(s: Seq<u64>, k: int)
    requires
        0 <= k < s.len(),
    ensures
        s[k] <= cells_max(s),
    decreases s.len(),
{
    if k < s.len() - 1 {
        lemma_cells_max_ge(s.drop_last(), k);
    }
}

/// Every cell is at most the grid's largest value.
pub proof fn lemma_cell_le_max(g: DensityGrid, x: int, y: int)
    requires
        grid_wf(g),
        0 <= x < density_width(g),
        0 <= y < density_height(g),
    ensures
        cell(g, x, y) <= grid_max(g),
{
    lemma_cell_index(density_width(g), density_height(g), x, y, x, y);
    lemma_cells_max_ge(density_cells(g), cell_index(density_width(g), x, y));
}

/// The largest cell value of `g`, 0 when every cell is zero.
pub fn max_value(g: &DensityGrid) -> (r: u64)
    requires
        grid_wf(*g),
    ensures
        r == grid_max(*g),
{
    let w = g.width();
    let h = g.height();
    let ghost cells = density_cells(*g);
    let mut m: u64 = 0;
    let mut y: u32 = 0;
    proof {
        assert(cells.take(0) =~= Seq::<u64>::empty());
    }
    while y < h
        invariant
            grid_wf(*g),
            cells == density_cells(*g),
            w == density_width(*g),
            h == density_height(*g),
            y <= h,
            m == cells_max(cells.take(y * w)),
        decreases h - y,
    {
        let mut x: u32 = 0;
        while x < w
            invariant
                grid_wf(*g),
                cells == density_cells(*g),
                w == density_width(*g),
                h == density_height(*g),
                y < h,
                x <= w,
                m == cells_max(cells.take(y * w + x)),
            decreases w - x,
        {
            let v = g.get(x, y);
            proof {
                lemma_cell_index(w as nat, h as nat, x as int, y as int, x as int, y as int);
                let k = y * w + x;
                assert(cells.take(k + 1).drop_last() =~= cells.take(k));
                assert(cells.take(k + 1).last() == v);
            }
            if v > m {
                m = v;
            }
            x = x + 1;
        }
        proof {
            assert(y * w + w == (y + 1) * w) by (nonlinear_arith);
        }
        y = y + 1;
    }
    proof {
        assert(cells.take(h * w) =~= cells) by {
            assert(h * w == w * h) by (nonlinear_arith);
        }
    }
    m
}

/// The stop, of `n`, nearest to position `v / max` of the scale (halves round up).
pub open spec fn color_index(v: int, max: int, n: int) -> int {
    (2 * v * (n - 1) + max) / (2 * max)
}

/// The color of a cell of value `v` in a grid whose largest value is `max`.
pub open spec fn cell_color(stops: Seq<Rgb8>, v: int, max: int) -> Rgb8 {
    if v == 0 {
        WHITE
    } else {
        stops[color_index(v, max, stops.len() as int)]
    }
}

/// The color of pixel (x, y) of `g` through the stops `stops`.
pub open spec fn pixel_color(g: DensityGrid, stops: Seq<Rgb8>, x: int, y: int) -> Rgb8 {
    cell_color(stops, cell(g, x, y) as int, grid_max(g) as int)
}

proof fn lemma_color_index_bound(v: int, max: int, n: int)
    requires
        0 < v <= max,
        n >= 1,
    ensures
        0 <= color_index(v, max, n) < n,
        v == max ==> color_index(v, max, n) == n - 1,
{
    assert(0 <= 2 * v * (n - 1) + max <= 2 * max * (n - 1) + max) by (nonlinear_arith)
        requires
            0 < v <= max,
            n >= 1,
    ;
    assert((2 * v * (n - 1) + max) / (2 * max) <= (2 * max * (n - 1) + max) / (2 * max)) by (nonlinear_arith)
        requires
            0 <= 2 * v * (n - 1) + max <= 2 * max * (n - 1) + max,
            max > 0,
    ;
    vstd::arithmetic::div_mod::lemma_fundamental_div_mod_converse(
        2 * max * (n - 1) + max,
        2 * max,
        n - 1,
        max,
    );
    assert(0 <= (2 * v * (n - 1) + max) / (2 * max)) by (nonlinear_arith)
        requires
            0 <= 2 * v * (n - 1) + max,
            max > 0,
    ;
}

/// `color_index` computed without overflow.
fn color_index_exec(v: u64, max: u64, n: usize) -> (r: usize)
    requires
        0 < v <= max,
        n >= 1,
    ensures
        r == color_index(v as int, max as int, n as int),
        r < n,
{
    proof {
        let vi = v as int;
        let ni = (n - 1) as int;
        assert(vi * ni <= 0xffff_ffff_ffff_ffff * 0xffff_ffff_ffff_ffff) by (nonlinear_arith)
            requires
                0 <= vi <= 0xffff_ffff_ffff_ffff,
                0 <= ni <= 0xffff_ffff_ffff_ffff,
        ;
    }
    let a: u128 = v as u128 * (n - 1) as u128;
    let q: u128 = a / max as u128;
    let rem: u128 = a % max as u128;
    proof {
        lemma_color_index_bound(v as int, max as int, n as int);
        let ai = a as int;
        let mi = max as int;
        assert(ai == q * mi + rem && 0 <= rem < mi) by (nonlinear_arith)
            requires
                mi > 0,
                q == ai / mi,
                rem == ai % mi,
        ;
        if 2 * rem >= mi {
            assert(2 * ai + mi == (q + 1) * (2 * mi) + (2 * rem - mi)) by (nonlinear_arith)
                requires
                    ai == q * mi + rem,
            ;
            vstd::arithmetic::div_mod::lemma_fundamental_div_mod_converse(
                2 * ai + mi,
                2 * mi,
                q + 1,
                2 * rem - mi,
            );
        } else {
            assert(2 * ai + mi == q * (2 * mi) + (2 * rem + mi)) by (nonlinear_arith)
                requires
                    ai == q * mi + rem,
            ;
            vstd::arithmetic::div_mod::lemma_fundamental_div_mod_converse(
                2 * ai + mi,
                2 * mi,
                q as int,
                2 * rem + mi,
            );
        }
        assert(2 * v * (n - 1) == 2 * ai) by (nonlinear_arith)
            requires
                ai == v * (n - 1),
        ;
    }
    if 2 * rem >= max as u128 {
        (q + 1) as usize
    } else {
        q as usize
    }
}

/// Renders `g` through `scale` as row-major RGB bytes, three per pixel: a
/// zero cell is white, any other cell of value `v` takes the stop nearest
/// to `v / max_value(g)`, so the largest cells take the last stop.
pub fn colorize(g: &DensityGrid, scale: &ColorScale) -> (r: Vec<u8>)
    requires
        grid_wf(*g),
        scale.stops.len() >= 2,
    ensures
        r.len() == 3 * density_width(*g) * density_height(*g),
        forall|x: int, y: int|
            0 <= x < density_width(*g) && 0 <= y < density_height(*g) ==> {
                let k = 3 * cell_index(density_width(*g), x, y);
                let c = #[trigger] pixel_color(*g, scale.stops@, x, y);
                r[k] == c.0 && r[k + 1] == c.1 && r[k + 2] == c.2
            },
{
    let m = max_value(g);
    let w = g.width();
    let h = g.height();
    let n = scale.stops.len();
    let mut r: Vec<u8> = Vec::new();
    let mut y: u32 = 0;
    while y < h
        invariant
            grid_wf(*g),
            m == grid_max(*g),
            w == density_width(*g),
            h == density_height(*g),
            n == scale.stops.len(),
            n >= 2,
            y <= h,
            r.len() == 3 * (y * w),
            forall|x2: int, y2: int|
                0 <= x2 < w && 0 <= y2 < y ==> {
                    let k = 3 * cell_index(w as nat, x2, y2);
                    let c = #[trigger] pixel_color(*g, scale.stops@, x2, y2);
                    r[k] == c.0 && r[k + 1] == c.1 && r[k + 2] == c.2
                },
        decreases h - y,
    {
        let mut x: u32 = 0;
        while x < w
            invariant
                grid_wf(*g),
                m == grid_max(*g),
                w == density_width(*g),
                h == density_height(*g),
                n == scale.stops.len(),
                n >= 2,
                y < h,
                x <= w,
                r.len() == 3 * (y * w + x),
                forall|x2: int, y2: int|
                    0 <= x2 < w && 0 <= y2 <= y && (y2 < y || x2 < x) ==> {
                        let k = 3 * cell_index(w as nat, x2, y2);
                        let c = #[trigger] pixel_color(*g, scale.stops@, x2, y2);
                        r[k] == c.0 && r[k + 1] == c.1 && r[k + 2] == c.2
                    },
            decreases w - x,
        {
            let v = g.get(x, y);
            let c: Rgb8 = if v == 0 {
                WHITE
            } else {
                proof {
                    lemma_cell_le_max(*g, x as int, y as int);
                }
                let i = color_index_exec(v, m, n);
                scale.stops[i]
            };
            let ghost r0 = r;
            r.push(c.0);
            r.push(c.1);
            r.push(c.2);
            proof {
                let k0 = 3 * (y * w + x);
                assert forall|x2: int, y2: int|
                    0 <= x2 < w && 0 <= y2 <= y && (y2 < y || x2 < x + 1) implies {
                        let k = 3 * cell_index(w as nat, x2, y2);
                        let c2 = #[trigger] pixel_color(*g, scale.stops@, x2, y2);
                        r[k] == c2.0 && r[k + 1] == c2.1 && r[k + 2] == c2.2
                    } by {
                    if y2 < y || x2 < x {
                        lemma_earlier_index(w as int, x2, y2, x as int, y as int);
                    }
                }
            }
            x = x + 1;
        }
        proof {
            assert(y * w + w == (y + 1) * w) by (nonlinear_arith);
        }
        y = y + 1;
    }
    proof {
        assert(3 * (h * w) == 3 * w * h) by (nonlinear_arith);
    }
    r
}

proof fn lemma_earlier_index(w: int, x2: int, y2: int, x: int, y: int)
    requires
        0 <= x2 < w,
        0 <= x < w,
        0 <= y2 <= y,
        y2 < y || x2 < x,
    ensures
        y2 * w + x2 < y * w + x,
{
    if y2 < y {
        assert(y2 * w + x2 < y * w + x) by (nonlinear_arith)
            requires
                0 <= x2 < w,
                0 <= x,
                y2 < y,
        ;
    }
}

/// Colorization: a zero cell renders white, and a cell that holds the
/// grid's largest value, when that is not zero, renders as the last stop.
pub proof fn lemma_colorize_extremes(g: DensityGrid, stops: Seq<Rgb8>, x: int, y: int)
    requires
        grid_wf(g),
        stops.len() >= 2,
        0 <= x < density_width(g),
        0 <= y < density_height(g),
    ensures
        cell(g, x, y) == 0 ==> pixel_color(g, stops, x, y) == WHITE,
        cell(g, x, y) == grid_max(g) && grid_max(g) > 0 ==> pixel_color(g, stops, x, y)
            == stops.last(),
{
    if cell(g, x, y) == grid_max(g) && grid_max(g) > 0 {
        lemma_color_index_bound(cell(g, x, y) as int, grid_max(g) as int, stops.len() as int);
    }
}

} // verus!
