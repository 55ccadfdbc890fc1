use line_density::error::RenderError;
use line_density::source::{clamp_rows, global_range, scale_values, take_points, time_columns, QueryWindow};

#[test]
fn ingested_values_scale_into_height() {
    let raw = vec![10i64, 20, 30];
    assert_eq!(scale_values(&raw, 10, 30, 100), vec![0, 50, 100]);
}

#[test]
fn scaling_rounds_down_and_flat_range_maps_to_zero() {
    assert_eq!(scale_values(&vec![0i64, 1, 2], 0, 3, 10), vec![0, 3, 6]);
    assert_eq!(scale_values(&vec![5i64, 5], 5, 5, 10), vec![0, 0]);
}

#[test]
fn global_range_over_all_series() {
    let s = vec![vec![3i64, 9], vec![], vec![-4, 2]];
    assert_eq!(global_range(&s), Some((-4, 9)));
    assert_eq!(global_range(&vec![vec![], vec![]]), None);
    assert_eq!(global_range(&vec![]), None);
}

#[test]
fn take_points_fails_on_short_source() {
    let raw = vec![1i64, 2, 3];
    assert_eq!(take_points(&raw, 2, 0), Ok(vec![1, 2]));
    assert_eq!(take_points(&raw, 4, 7), Err(RenderError::TooFewPoints { source: 7, found: 3, needed: 4 }));
}

#[test]
fn query_window_end_is_snapped_outward() {
    // span 10 with width 4: steps of 8, so the end moves to 16 past the start
    assert_eq!(QueryWindow::new(100, 110, 4), Ok(QueryWindow { start: 100, end: 116 }));
    assert_eq!(QueryWindow::new(0, 16, 4), Ok(QueryWindow { start: 0, end: 16 }));
    assert_eq!(QueryWindow::new(5, 5, 4), Err(RenderError::BadQueryWindow));
    assert_eq!(QueryWindow::new(0, 10, 0), Err(RenderError::BadQueryWindow));
    assert_eq!(QueryWindow::new(0, i64::MAX, 4), Err(RenderError::BadQueryWindow));
}

#[test]
fn timestamps_map_to_columns_rounding_down() {
    let w = QueryWindow { start: 0, end: 16 };
    let cols = time_columns(&vec![0i64, 3, 4, 15, 16, -1, -5], w, 4);
    assert_eq!(cols, vec![0, 0, 1, 3, 4, -1, -2]);
    let far = time_columns(&vec![i64::MAX, i64::MIN], w, 4);
    assert_eq!(far, vec![i32::MAX, i32::MIN]);
}

#[test]
fn noisy_values_are_clamped_to_rows() {
    let noisy = vec![-2i64, 5, 8, 17, 10, 0];
    assert_eq!(clamp_rows(&noisy, 10), vec![0, 5, 8, 10, 10, 0]);
}
