//! The density grid: an `image::ImageBuffer` with one `u64` luma sample per
//! pixel, seen by the verified code through the row-major sequence of its
//! cells and its two dimensions.
use vstd::prelude::*;

verus! {

/// A grid of density cells, `width` columns by `height` rows.
#[verifier::external_body]
pub struct DensityGrid {
    img: image::ImageBuffer<image::Luma<u64>, Vec<u64>>,
}

/// The cells of a density grid in row-major order: cell (x, y) stands at `y * width + x`.
pub uninterp spec fn density_cells(g: DensityGrid) -> Seq<u64>;

/// The number of columns of a density grid.
pub uninterp spec fn density_width(g: DensityGrid) -> nat;

/// The number of rows of a density grid.
pub uninterp spec fn density_height(g: DensityGrid) -> nat;

/// Position of cell (x, y) in the row-major sequence of a grid `width` columns wide.
pub open spec fn cell_index(width: nat, x: int, y: int) -> int {
    y * width + x
}

/// A grid whose cell sequence holds exactly one cell per pixel.
pub open spec fn grid_wf(g: DensityGrid) -> bool {
    density_cells(g).len() == density_width(g) * density_height(g)
}

/// The cell in column `x` and row `y`.
pub open spec fn cell(g: DensityGrid, x: int, y: int) -> u64 {
    density_cells(g)[cell_index(density_width(g), x, y)]
}

/// Two grids of the same dimensions.
pub open spec fn same_dims(a: DensityGrid, b: DensityGrid) -> bool {
    density_width(a) == density_width(b) && density_height(a) == density_height(b)
}

/// Relies on `ImageBuffer::new`: a `width` by `height` buffer whose samples are
/// all zero; it panics when the buffer length overflows `usize`.
#[verifier::external_body]
fn image_new(width: u32, height: u32) -> (g: DensityGrid)
    requires
        width * height <= usize::MAX,
    ensures
        density_width(g) == width,
        density_height(g) == height,
        density_cells(g) == Seq::new((width * height) as nat, |i: int| 0u64),
{
    DensityGrid { img: image::ImageBuffer::new(width, height) }
}

/// Relies on `ImageBuffer::width`.
#[verifier::external_body]
fn image_width(g: &DensityGrid) -> (r: u32)
    ensures
        r == density_width(*g),
{
    g.img.width()
}

/// Relies on `ImageBuffer::height`.
#[verifier::external_body]
fn image_height(g: &DensityGrid) -> (r: u32)
    ensures
        r == density_height(*g),
{
    g.img.height()
}

/// Relies on `ImageBuffer::get_pixel`: the sample stored at `(y * width + x)`;
/// it panics outside the grid.
#[verifier::external_body]
fn image_get(g: &DensityGrid, x: u32, y: u32) -> (r: u64)
    requires
        x < density_width(*g),
        y < density_height(*g),
    ensures
        r == density_cells(*g)[cell_index(density_width(*g), x as int, y as int)],
{
    g.img.get_pixel(x, y).0[0]
}

/// Relies on `ImageBuffer::put_pixel`: it overwrites the sample stored at
/// `(y * width + x)` and nothing else; it panics outside the grid.
#[verifier::external_body]
fn image_put(g: &mut DensityGrid, x: u32, y: u32, v: u64)
    requires
        x < density_width(*old(g)),
        y < density_height(*old(g)),
    ensures
        density_width(*final(g)) == density_width(*old(g)),
        density_height(*final(g)) == density_height(*old(g)),
        density_cells(*final(g)) == density_cells(*old(g)).update(
            cell_index(density_width(*old(g)), x as int, y as int),
            v,
        ),
{
    g.img.put_pixel(x, y, image::Luma([v]));
}

/// Cells of distinct pixels stand at distinct positions, inside the sequence.
pub proof fn lemma_cell_index(width: nat, height: nat, x: int, y: int, x2: int, y2: int)
    requires
        0 <= x < width,
        0 <= y < height,
        0 <= x2 < width,
        0 <= y2 < height,
    ensures
        0 <= cell_index(width, x, y) < width * height,
        (x != x2 || y != y2) ==> cell_index(width, x, y) != cell_index(width, x2, y2),
{
    assert(0 <= y * width + x < width * height) by (nonlinear_arith)
        requires
            0 <= x < width,
            0 <= y < height,
    ;
    if y < y2 {
        assert(y * width + x < y2 * width + x2) by (nonlinear_arith)
            requires
                0 <= x < width,
                0 <= x2,
                y < y2,
        ;
    } else if y2 < y {
        assert(y2 * width + x2 < y * width + x) by (nonlinear_arith)
            requires
                0 <= x2 < width,
                0 <= x,
                y2 < y,
        ;
    }
}

impl DensityGrid {
    /// A `width` by `height` grid whose cells are all zero.
    pub fn zeroed(width: u32, height: u32) -> (g: DensityGrid)
        requires
            width * height <= usize::MAX,
        ensures
            grid_wf(g),
            density_width(g) == width,
            density_height(g) == height,
            forall|x: int, y: int| 0 <= x < width && 0 <= y < height ==> #[trigger] cell(g, x, y) == 0,
    {
        let g = image_new(width, height);
        proof {
            assert forall|x: int, y: int| 0 <= x < width && 0 <= y < height implies #[trigger] cell(g, x, y) == 0 by {
                lemma_cell_index(width as nat, height as nat, x, y, x, y);
            }
        }
        g
    }

    /// The number of columns.
    pub fn width(&self) -> (r: u32)
        ensures
            r == density_width(*self),
    {
        image_width(self)
    }

    /// The number of rows.
    pub fn height(&self) -> (r: u32)
        ensures
            r == density_height(*self),
    {
        image_height(self)
    }

    /// The cell in column `x` and row `y`.
    pub fn get(&self, x: u32, y: u32) -> (r: u64)
        requires
            x < density_width(*self),
            y < density_height(*self),
        ensures
            r == cell(*self, x as int, y as int),
    {
        image_get(self, x, y)
    }

    /// Overwrites the cell in column `x` and row `y`, leaving every other cell as it was.
    pub fn set(&mut self, x: u32, y: u32, v: u64)
        requires
            grid_wf(*old(self)),
            x < density_width(*old(self)),
            y < density_height(*old(self)),
        ensures
            grid_wf(*final(self)),
            same_dims(*final(self), *old(self)),
            cell(*final(self), x as int, y as int) == v,
            forall|x2: int, y2: int|
                0 <= x2 < density_width(*old(self)) && 0 <= y2 < density_height(*old(self))
                    && (x2 != x || y2 != y) ==> #[trigger] cell(*final(self), x2, y2) == cell(
                    *old(self),
                    x2,
                    y2,
                ),
    {
        image_put(self, x, y, v);
        proof {
            let w = density_width(*old(self));
            let h = density_height(*old(self));
            lemma_cell_index(w, h, x as int, y as int, x as int, y as int);
            assert forall|x2: int, y2: int|
                0 <= x2 < w && 0 <= y2 < h && (x2 != x || y2 != y) implies #[trigger] cell(
                *self,
                x2,
                y2,
            ) == cell(*old(self), x2, y2) by {
                lemma_cell_index(w, h, x as int, y as int, x2, y2);
                lemma_cell_index(w, h, x2, y2, x2, y2);
            }
        }
    }
}

} // verus!
