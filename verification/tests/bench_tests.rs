use zellij_template_render::bench::{bench_presentation, bench_stats, percentile, record_sample, SAMPLE_WINDOW};

#[test]
fn percentiles_pick_sorted_samples() {
    let values = [1u128, 2, 3, 4, 5, 6, 7, 8, 9, 10];
    assert_eq!(percentile(&values, 50), 5);
    assert_eq!(percentile(&values, 95), 9);
    assert_eq!(percentile(&values, 100), 10);
    assert_eq!(percentile(&[], 50), 0);
}

#[test]
fn bench_buttons_bracket_the_focused_one() {
    let focused = bench_presentation("B01", Some(true));
    assert_eq!(focused.label, "[B01]");
    assert!(focused.focused);
    let plain = bench_presentation("B02", None);
    assert_eq!(plain.label, " B02 ");
    assert!(!plain.focused);
}

#[test]
fn stats_wait_for_samples() {
    assert_eq!(bench_stats(&Vec::new(), true), "render: waiting");
}

#[test]
fn stats_summarise_unsorted_samples() {
    let samples = vec![30u128, 10, 20, 50, 40];
    assert_eq!(
        bench_stats(&samples, false),
        "render samples=5 p50=30us p95=40us max=50us mode=static"
    );
    assert_eq!(
        bench_stats(&vec![7u128], true),
        "render samples=1 p50=7us p95=7us max=7us mode=animated"
    );
}

#[test]
fn sample_window_keeps_the_newest() {
    let mut samples = Vec::new();
    for micros in 0..(SAMPLE_WINDOW as u128 + 5) {
        record_sample(&mut samples, micros);
    }
    assert_eq!(samples.len(), SAMPLE_WINDOW);
    assert_eq!(samples[0], 5);
    assert_eq!(*samples.last().unwrap(), SAMPLE_WINDOW as u128 + 4);
    let mut few = vec![1u128];
    record_sample(&mut few, 2);
    assert_eq!(few, vec![1, 2]);
}
