use line_density::colorize::{colorize, ColorScale, WHITE};
use line_density::density::DENSITY_ONE;
use line_density::error::RenderError;
use line_density::grid::DensityGrid;
use line_density::pipeline::{aggregate, prepare_ingested, regular_chart, render_regular, Resolution, RunConfig};
use line_density::source::QueryWindow;

fn column_sum(g: &DensityGrid, x: u32) -> u64 {
    (0..g.height()).map(|y| g.get(x, y)).sum()
}

#[test]
fn run_config_rejects_zero_dimensions() {
    assert_eq!(RunConfig::new(0, 4, 4), Err(RenderError::BadConfig));
    assert_eq!(RunConfig::new(2, 0, 4), Err(RenderError::BadConfig));
    assert_eq!(RunConfig::new(2, 4, 0), Err(RenderError::BadConfig));
    // one point per series draws no line
    assert_eq!(RunConfig::new(1, 1, 4), Err(RenderError::BadConfig));
    let c = RunConfig::new(2, 4, 3).unwrap();
    assert_eq!(c.series_len(), 8);
}

#[test]
fn regular_chart_places_points_by_column() {
    let cfg = RunConfig::new(2, 2, 10).unwrap();
    let values = vec![1i64, 2, 9, 4];
    let full = regular_chart(&values, &cfg, Resolution::Full);
    assert_eq!(full.xs, vec![0, 0, 1, 1]);
    assert_eq!(full.ys, vec![1, 2, 9, 4]);
    let m4 = regular_chart(&values, &cfg, Resolution::M4);
    assert_eq!(m4.xs, vec![0, 0, 0, 0, 1, 1, 1, 1]);
    assert_eq!(m4.ys, vec![1, 2, 1, 2, 9, 4, 4, 9]);
}

#[test]
fn end_to_end_constant_series() {
    let cfg = RunConfig::new(2, 4, 3).unwrap();
    let series = vec![vec![1i64; 8], vec![1i64; 8], vec![1i64; 8]];
    let g = render_regular(&series, &cfg, Resolution::Full);
    for x in 0..4 {
        assert_eq!(column_sum(&g, x), 3 * DENSITY_ONE);
        assert_eq!(g.get(x, 1), 3 * DENSITY_ONE);
    }
    let scale = ColorScale::new(vec![(250, 250, 250), (0, 0, 0)]).unwrap();
    let bytes = colorize(&g, &scale);
    for y in 0..3usize {
        for x in 0..4usize {
            let k = 3 * (y * 4 + x);
            let px = (bytes[k], bytes[k + 1], bytes[k + 2]);
            if y == 1 {
                assert_eq!(px, (0, 0, 0));
            } else {
                assert_eq!(px, WHITE);
            }
        }
    }
}

#[test]
fn m4_rendering_of_constant_series_matches_full() {
    let cfg = RunConfig::new(4, 3, 5).unwrap();
    let series = vec![vec![2i64; 12], vec![3i64; 12]];
    let full = render_regular(&series, &cfg, Resolution::Full);
    let m4 = render_regular(&series, &cfg, Resolution::M4);
    for x in 0..3 {
        for y in 0..5 {
            assert_eq!(full.get(x, y), m4.get(x, y));
        }
    }
}

#[test]
fn aggregate_of_no_series_is_empty() {
    let g = aggregate(&vec![], 3, 2);
    for x in 0..3 {
        for y in 0..2 {
            assert_eq!(g.get(x, y), 0);
        }
    }
}

#[test]
fn ingested_needs_window_at_full_resolution() {
    let cfg = RunConfig::new(1, 2, 4).unwrap();
    let r = prepare_ingested(&vec![vec![0, 1]], &vec![vec![5, 6]], &cfg, Resolution::Full, None);
    assert_eq!(r.err(), Some(RenderError::BadQueryWindow));
}

#[test]
fn ingested_reports_first_short_source() {
    let cfg = RunConfig::new(2, 2, 4).unwrap();
    let ts = vec![vec![0, 1, 2, 3], vec![0, 1], vec![0]];
    let vs = vec![vec![1, 2, 3, 4], vec![1, 2], vec![1]];
    let r = prepare_ingested(&ts, &vs, &cfg, Resolution::M4, None);
    assert_eq!(r.err(), Some(RenderError::TooFewPoints { source: 1, found: 2, needed: 4 }));
}

#[test]
fn ingested_series_are_scaled_and_placed() {
    let cfg = RunConfig::new(1, 4, 100).unwrap();
    let w = QueryWindow::new(0, 8, 4).unwrap();
    let ts = vec![vec![0, 2, 4, 6, 8], vec![1, 3, 5, 7]];
    let vs = vec![vec![10, 20, 30, 20, 99], vec![30, 10, 10, 30]];
    let lines = prepare_ingested(&ts, &vs, &cfg, Resolution::Full, Some(w)).unwrap();
    assert_eq!(lines.len(), 2);
    assert_eq!(lines[0].xs, vec![0, 1, 2, 3]);
    assert_eq!(lines[0].ys, vec![0, 50, 100, 50]);
    assert_eq!(lines[1].xs, vec![0, 1, 2, 3]);
    assert_eq!(lines[1].ys, vec![100, 0, 0, 100]);
    let m4 = prepare_ingested(&ts, &vs, &cfg, Resolution::M4, None).unwrap();
    assert_eq!(m4[0].xs.len(), 16);
    assert_eq!(m4[0].ys[0..4].to_vec(), vec![0, 0, 0, 0]);
}

#[test]
fn aggregate_never_decreases_with_more_series() {
    let cfg = RunConfig::new(2, 3, 4).unwrap();
    let series = vec![vec![0i64, 3, 1, 2, 2, 0], vec![3i64, 3, 0, 1, 1, 2]];
    let lines = line_density::pipeline::regular_charts(&series, &cfg, Resolution::Full);
    let one = aggregate(&vec![lines[0].clone()], 3, 4);
    let two = aggregate(&lines, 3, 4);
    for x in 0..3 {
        for y in 0..4 {
            assert!(one.get(x, y) <= two.get(x, y));
        }
    }
}
