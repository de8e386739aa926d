use cubert::strategy::{
    min_bars, momentum_prices, no_estimate_line, push_bounded, push_trimmed, recompute_due,
    warming_up_line, AdfConfidence, BarWindow,
};

#[test]
fn adf_grading() {
    assert_eq!(AdfConfidence::from_rejections(true, true, true), AdfConfidence::OnePercent);
    assert_eq!(AdfConfidence::from_rejections(false, true, true), AdfConfidence::FivePercent);
    assert_eq!(AdfConfidence::from_rejections(false, false, true), AdfConfidence::TenPercent);
    assert_eq!(AdfConfidence::from_rejections(false, false, false), AdfConfidence::NoRejection);
    assert!(AdfConfidence::TenPercent.is_stationary());
    assert!(!AdfConfidence::NoRejection.is_stationary());
}

#[test]
fn warmup_and_recompute_schedule() {
    assert_eq!(min_bars(60), 61);
    assert_eq!(min_bars(0), 2);
    assert_eq!(min_bars(-5), 2);
    assert!(recompute_due(10, 5));
    assert!(!recompute_due(11, 5));
    assert!(recompute_due(7, 0));
    assert!(recompute_due(7, 1));
}

#[test]
fn bounded_buffers() {
    let mut b = vec![1.0, 2.0, 3.0];
    push_bounded(&mut b, 4.0, 3);
    assert_eq!(b, vec![2.0, 3.0, 4.0]);
    push_bounded(&mut b, 5.0, 5);
    assert_eq!(b, vec![2.0, 3.0, 4.0, 5.0]);
    let mut h: Vec<f64> = (0..15).map(|i| i as f64).collect();
    push_trimmed(&mut h, 15.0, 5);
    assert_eq!(h, (10..16).map(|i| i as f64).collect::<Vec<f64>>());
    let mut h2 = vec![1.0];
    push_trimmed(&mut h2, 2.0, 5);
    assert_eq!(h2, vec![1.0, 2.0]);
}

#[test]
fn momentum_price_pairs() {
    let prices = [100.0, 101.0, 102.0, 103.0, 104.0, 105.0];
    assert_eq!(momentum_prices(&prices, 5), Some((105.0, 100.0)));
    assert_eq!(momentum_prices(&prices, 1), Some((105.0, 104.0)));
    assert_eq!(momentum_prices(&prices, 6), None);
    assert_eq!(momentum_prices(&[1.0, 2.0], 1), Some((2.0, 1.0)));
    assert_eq!(momentum_prices(&[1.0, 2.0], 0), Some((2.0, 2.0)));
    let empty: [f64; 0] = [];
    assert_eq!(momentum_prices(&empty, 0), None);
}

#[test]
fn diagnostics_progress_lines() {
    assert_eq!(warming_up_line("TREND", 1, 61), "TREND: warming up, 1/61 bars");
    assert_eq!(no_estimate_line("OU", 61), "OU: 61 bars, no estimate yet");
}

#[test]
fn bar_window_keeps_the_newest_and_waits_out_the_window() {
    let mut w: BarWindow<f64> = BarWindow::new();
    // window 3 needs 4 bars; recompute every 2nd bar; keep at most 5 prices.
    let due: Vec<bool> = (1..=8).map(|i| w.record(i as f64, 5, 3, 2)).collect();
    assert_eq!(due, vec![false, false, false, true, false, true, false, true]);
    assert_eq!(w.prices(), &vec![4.0, 5.0, 6.0, 7.0, 8.0]);
    assert_eq!(w.seen(), 8);
    let mut z: BarWindow<f64> = BarWindow::new();
    assert!(!z.record(1.0, 0, 0, 0));
    assert!(z.prices().is_empty());
    assert!(!z.record(2.0, 10, 0, 0));
    assert!(z.record(3.0, 10, 0, 0));
}
