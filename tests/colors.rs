use line_density::colorize::{colorize, max_value, ColorScale, WHITE};
use line_density::grid::DensityGrid;

fn scale() -> ColorScale {
    ColorScale::new(vec![(10, 20, 30), (100, 100, 100), (0, 0, 200)]).unwrap()
}

#[test]
fn color_scale_needs_two_stops() {
    assert!(ColorScale::new(vec![(1, 2, 3)]).is_none());
    assert!(ColorScale::new(vec![]).is_none());
    assert!(ColorScale::new(vec![(1, 2, 3), (4, 5, 6)]).is_some());
}

#[test]
fn max_value_of_grid() {
    let mut g = DensityGrid::zeroed(3, 2);
    assert_eq!(max_value(&g), 0);
    g.set(1, 1, 7);
    g.set(2, 0, 3);
    assert_eq!(max_value(&g), 7);
}

#[test]
fn colorize_zero_white_and_max_end_stop() {
    let mut g = DensityGrid::zeroed(2, 2);
    g.set(0, 0, 8);
    g.set(1, 0, 4);
    g.set(0, 1, 1);
    let bytes = colorize(&g, &scale());
    assert_eq!(bytes.len(), 12);
    let px = |x: usize, y: usize| (bytes[3 * (y * 2 + x)], bytes[3 * (y * 2 + x) + 1], bytes[3 * (y * 2 + x) + 2]);
    assert_eq!(px(0, 0), (0, 0, 200));
    // 4 / 8 = 0.5 of the way: the middle stop
    assert_eq!(px(1, 0), (100, 100, 100));
    // 1 / 8 = 0.125 of the way: rounds to the first stop
    assert_eq!(px(0, 1), (10, 20, 30));
    assert_eq!(px(1, 1), WHITE);
}

#[test]
fn colorize_all_zero_is_white() {
    let g = DensityGrid::zeroed(3, 2);
    let bytes = colorize(&g, &scale());
    assert!(bytes.iter().all(|b| *b == 255));
}
