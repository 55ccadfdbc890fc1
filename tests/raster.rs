use line_density::density::{normalize_columns, run_series, sum_images, DENSITY_ONE};
use line_density::grid::DensityGrid;
use line_density::raster::rasterize;

fn column_sum(g: &DensityGrid, x: u32) -> u64 {
    (0..g.height()).map(|y| g.get(x, y)).sum()
}

#[test]
fn rasterize_horizontal_segment() {
    let g = rasterize(&[0, 3], &[1, 1], 4, 3);
    for x in 0..4 {
        for y in 0..3 {
            assert_eq!(g.get(x, y), if y == 1 { 1 } else { 0 });
        }
    }
}

#[test]
fn rasterize_diagonal_rounds_half_up() {
    // from (0, 0) to (4, 2): rows 0, 1 (0.5 rounds up), 1, 2 (1.5 rounds up), 2
    let g = rasterize(&[0, 4], &[0, 2], 5, 3);
    let expected = [(0u32, 0u32), (1, 1), (2, 1), (3, 2), (4, 2)];
    for x in 0..5 {
        for y in 0..3 {
            let hit = expected.contains(&(x, y));
            assert_eq!(g.get(x, y), if hit { 1 } else { 0 });
        }
    }
}

#[test]
fn rasterize_steep_segment_and_clipping() {
    // steep: stepped along y; from (1, -1) to (2, 3), clipped to rows 0..3
    let g = rasterize(&[1, 2], &[-1, 3], 3, 3);
    // y = -1 -> x 1; y = 0 -> x 1 (0.25); y = 1 -> x 2 (0.5 rounds up); y = 2 -> x 2
    assert_eq!(g.get(1, 0), 1);
    assert_eq!(g.get(2, 1), 1);
    assert_eq!(g.get(2, 2), 1);
    let total: u64 = (0..3).flat_map(|x| (0..3).map(move |y| (x, y))).map(|(x, y)| g.get(x, y)).sum();
    assert_eq!(total, 3);
}

#[test]
fn rasterize_counts_shared_endpoints_per_segment() {
    let g = rasterize(&[0, 1, 2], &[0, 0, 0], 3, 1);
    assert_eq!(g.get(0, 0), 1);
    assert_eq!(g.get(1, 0), 2);
    assert_eq!(g.get(2, 0), 1);
}

#[test]
fn normalized_columns_sum_to_one_unit() {
    let ts = [0, 1, 2, 3, 4, 5];
    let vs = [0, 6, 1, 5, 2, 4];
    let g = run_series(&ts, &vs, 8, 7);
    for x in 0..6 {
        assert_eq!(column_sum(&g, x), DENSITY_ONE);
    }
    // columns 6 and 7 are never reached and stay zero
    for x in 6..8 {
        for y in 0..7 {
            assert_eq!(g.get(x, y), 0);
        }
    }
}

#[test]
fn normalize_exact_values() {
    let mut g = DensityGrid::zeroed(2, 3);
    g.set(0, 0, 1);
    g.set(0, 1, 3);
    g.set(0, 2, 0);
    normalize_columns(&mut g);
    assert_eq!(g.get(0, 0), DENSITY_ONE / 4);
    assert_eq!(g.get(0, 1), DENSITY_ONE * 3 / 4);
    assert_eq!(g.get(0, 2), 0);
    assert_eq!(g.get(1, 0), 0);
    // a column of thirds: the rounded running total gives the last row the spare unit
    let mut h = DensityGrid::zeroed(1, 3);
    h.set(0, 0, 1);
    h.set(0, 1, 1);
    h.set(0, 2, 1);
    normalize_columns(&mut h);
    assert_eq!(h.get(0, 0), 1431655765);
    assert_eq!(h.get(0, 1), 1431655765);
    assert_eq!(h.get(0, 2), 1431655766);
    assert_eq!(column_sum(&h, 0), DENSITY_ONE);
}

#[test]
fn tall_vertical_line_sums_to_one_unit() {
    let height: u32 = 100_000;
    let g = run_series(&[0, 0], &[0, (height - 1) as i32], 1, height);
    assert_eq!(column_sum(&g, 0), DENSITY_ONE);
    for y in 0..height {
        let v = g.get(0, y);
        assert!(v == 42949 || v == 42950);
    }
}

#[test]
fn grid_set_changes_one_cell() {
    let mut g = DensityGrid::zeroed(3, 2);
    g.set(2, 1, 42);
    assert_eq!(g.width(), 3);
    assert_eq!(g.height(), 2);
    for x in 0..3 {
        for y in 0..2 {
            assert_eq!(g.get(x, y), if (x, y) == (2, 1) { 42 } else { 0 });
        }
    }
}

#[test]
fn folding_twice_doubles() {
    let ts = [0, 1, 2, 3];
    let vs = [0, 2, 1, 2];
    let a = run_series(&ts, &vs, 4, 3);
    let once = sum_images(run_series(&ts, &vs, 4, 3), DensityGrid::zeroed(4, 3));
    let twice = sum_images(run_series(&ts, &vs, 4, 3), sum_images(run_series(&ts, &vs, 4, 3), DensityGrid::zeroed(4, 3)));
    for x in 0..4 {
        for y in 0..3 {
            assert_eq!(once.get(x, y), a.get(x, y));
            assert_eq!(twice.get(x, y), 2 * once.get(x, y));
        }
    }
}

#[test]
fn sum_images_saturates() {
    let mut a = DensityGrid::zeroed(1, 1);
    a.set(0, 0, u64::MAX - 1);
    let mut b = DensityGrid::zeroed(1, 1);
    b.set(0, 0, 5);
    let r = sum_images(a, b);
    assert_eq!(r.get(0, 0), u64::MAX);
}

#[test]
fn fold_order_does_not_matter() {
    let series: [([i32; 4], [i32; 4]); 3] = [
        ([0, 1, 2, 3], [0, 3, 1, 2]),
        ([0, 0, 2, 3], [3, 0, 0, 1]),
        ([1, 2, 2, 3], [2, 2, 0, 3]),
    ];
    let orders = [[0, 1, 2], [0, 2, 1], [1, 0, 2], [1, 2, 0], [2, 0, 1], [2, 1, 0]];
    let mut results: Vec<Vec<u64>> = Vec::new();
    for order in orders.iter() {
        let mut acc = DensityGrid::zeroed(4, 4);
        for &i in order.iter() {
            acc = sum_images(run_series(&series[i].0, &series[i].1, 4, 4), acc);
        }
        let mut cells = Vec::new();
        for y in 0..4 {
            for x in 0..4 {
                cells.push(acc.get(x, y));
            }
        }
        results.push(cells);
    }
    for r in &results {
        assert_eq!(r, &results[0]);
    }
}

#[test]
fn tall_m4_bucket_sums_to_one_unit() {
    let height: u32 = 100_000;
    // first, last, smallest, largest of a bucket spanning every row
    let top = (height - 1) as i32;
    let g = run_series(&[0, 0, 0, 0], &[0, top, 0, top], 1, height);
    assert_eq!(column_sum(&g, 0), DENSITY_ONE);
    assert!(g.get(0, 0) > 0);
    assert!(g.get(0, height - 1) > 0);
}
