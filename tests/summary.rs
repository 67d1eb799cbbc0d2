use elevator::stats::{isqrt, summary_fits, variable_summary_stats};

fn micros(x: f64) -> i64 {
    (x * 1_000_000.0).round() as i64
}

#[test]
fn variable_stats() {
    let test_data = vec![
        (vec![1.0, 2.0, 3.0, 4.0, 5.0], 3.0, 1.41),
        (vec![1.0, 3.0, 5.0, 7.0, 9.0], 5.0, 2.83),
        (vec![1.0, 9.0, 1.0, 9.0, 1.0], 4.2, 3.92),
        (vec![1.0, 0.5, 0.7, 0.9, 0.6], 0.74, 0.19),
        (vec![200.0, 3.0, 24.0, 92.0, 111.0], 86.0, 69.84),
    ];
    for (data, avg, dev) in test_data {
        let samples: Vec<i64> = data.iter().map(|&x| micros(x)).collect();
        let (ravg, rdev) = variable_summary_stats(&samples);
        let ravg = ravg as f64 / 1_000_000.0;
        let rdev = rdev as f64 / 1_000_000.0;
        assert!((avg - ravg).abs() < 0.1);
        assert!((dev - rdev).abs() < 0.1);
    }
}

#[test]
fn stats_round_down_exactly() {
    // Population variance of [1, 2, 3, 4, 5] is 2; √2 = 1.414213...
    assert_eq!(variable_summary_stats(&vec![1_000_000, 2_000_000, 3_000_000, 4_000_000, 5_000_000]), (3_000_000, 1_414_213));
    assert_eq!(variable_summary_stats(&vec![200, 3, 24, 92, 111]), (86, 69));
    assert_eq!(variable_summary_stats(&vec![-7]), (-7, 0));
    assert_eq!(variable_summary_stats(&vec![]), (0, 0));
    assert_eq!(variable_summary_stats(&vec![-1, -2]), (-1, 0));
    assert_eq!(variable_summary_stats(&vec![0, 2_000_000_000]), (1_000_000_000, 1_000_000_000));
}

#[test]
fn integer_square_roots() {
    assert_eq!(isqrt(0), 0);
    assert_eq!(isqrt(1), 1);
    assert_eq!(isqrt(15), 3);
    assert_eq!(isqrt(16), 4);
    assert_eq!(isqrt(u128::MAX), u64::MAX);
}

#[test]
fn spread_fits_only_for_moderate_samples() {
    assert!(summary_fits(&vec![]));
    assert!(summary_fits(&vec![1_000_000, 2_000_000, 3_000_000]));
    assert!(summary_fits(&vec![0, 2_000_000_000]));
    assert!(!summary_fits(&vec![i64::MIN, i64::MAX]));
}
