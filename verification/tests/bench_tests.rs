use bueno::bench::{bench_replay, bench_step, replay_pass};

#[test]
fn step_halves_toward_the_sample() {
    let (avg, done) = bench_step(0, 1000);
    assert_eq!(avg, 500);
    assert!(!done);
    let (avg, done) = bench_step(500, 1000);
    assert_eq!(avg, 750);
    assert!(!done);
}

#[test]
fn step_reports_stability_within_five_ppm() {
    // avg becomes 1_000_000 exactly; deviation 0 <= 5 ppm.
    let (avg, done) = bench_step(1_000_000, 1_000_000);
    assert_eq!(avg, 1_000_000);
    assert!(done);
    // avg becomes 999_997; deviation 3 ppm of 1_000_000 <= 5 ppm.
    let (avg, done) = bench_step(999_994, 1_000_000);
    assert_eq!(avg, 999_997);
    assert!(done);
    // avg becomes 999_500; deviation 500 ppm: not stable.
    let (avg, done) = bench_step(999_000, 1_000_000);
    assert_eq!(avg, 999_500);
    assert!(!done);
}

#[test]
fn constant_samples_converge_near_the_true_mean() {
    let samples: Vec<u64> = vec![1_000_000; 64];
    let r = bench_replay(&samples);
    assert!(r.converged);
    // Within the five-parts-per-million threshold of the constant sample.
    assert!(1_000_000 - r.avg_ns <= 5);
    assert!(r.samples_used <= 64);
}

#[test]
fn consecutive_runs_on_noisy_constant_samples_agree() {
    let a: Vec<u64> = (0..64u64).map(|i| 1_000_000 + (i % 3)).collect();
    let b: Vec<u64> = (0..64u64).map(|i| 1_000_000 + ((i + 1) % 3)).collect();
    let ra = bench_replay(&a);
    let rb = bench_replay(&b);
    assert!(ra.converged && rb.converged);
    let d = ra.avg_ns.abs_diff(rb.avg_ns);
    assert!(d <= 10, "two runs over near-identical timings diverged by {d} ns");
}

#[test]
fn short_or_small_streams_report_non_convergence() {
    let r = bench_replay(&Vec::new());
    assert!(!r.converged);
    assert_eq!(r.samples_used, 0);
    // Samples of 100 ns can never satisfy a five-ppm threshold with an
    // integer average short of exactness; the stream runs out first.
    let samples: Vec<u64> = vec![100, 101, 100, 101, 100];
    let r = bench_replay(&samples);
    assert!(!r.converged);
    assert_eq!(r.samples_used, 5);
}

#[test]
fn warmup_pass_is_discarded() {
    // First pass converges on the 2_000_000 plateau, second on 1_000_000:
    // the reported average comes from the second pass only.
    let mut samples: Vec<u64> = vec![2_000_000; 32];
    samples.extend(vec![1_000_000u64; 32]);
    let warmup = replay_pass(&samples, 0);
    assert!(warmup.2);
    assert!(warmup.0.abs_diff(2_000_000) <= 10);
    let r = bench_replay(&samples);
    assert!(r.converged);
    assert!(r.avg_ns.abs_diff(1_000_000) <= 5);
}
