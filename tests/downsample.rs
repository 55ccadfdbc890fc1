use line_density::m4::{m4_buckets, m4_series, Bucket};

#[test]
fn m4_bucket_keeps_first_last_min_max() {
    let series = vec![5i64, 1, 9, 3];
    let b = m4_buckets(&series, 1);
    assert_eq!(b, vec![Bucket { first: 5, last: 3, min: 1, max: 9 }]);
}

#[test]
fn m4_series_order_is_first_last_min_max() {
    let series = vec![5i64, 1, 9, 3];
    assert_eq!(m4_series(&series, 1), vec![5, 3, 1, 9]);
}

#[test]
fn m4_series_has_four_points_per_column() {
    let series: Vec<i64> = (0..40).map(|i| (i * 7 % 11) as i64).collect();
    for width in 1u32..=10 {
        let r = m4_series(&series, width);
        assert_eq!(r.len(), 4 * width as usize);
    }
}

#[test]
fn m4_drops_remainder_and_bounds_hold() {
    // 10 values into 3 buckets of 3; the last value is dropped
    let series = vec![4i64, -2, 7, 0, 0, 0, 8, 9, 1, 100];
    let b = m4_buckets(&series, 3);
    assert_eq!(
        b,
        vec![
            Bucket { first: 4, last: 7, min: -2, max: 7 },
            Bucket { first: 0, last: 0, min: 0, max: 0 },
            Bucket { first: 8, last: 1, min: 1, max: 9 },
        ]
    );
    for (i, m) in b.iter().enumerate() {
        for v in &series[i * 3..i * 3 + 3] {
            assert!(m.min <= *v && *v <= m.max);
        }
    }
}
