use embeddenator_contract_bench::harness::{measure_fn, BenchConfig, Measured, Profile};
use embeddenator_contract_bench::naming::format_count;
use embeddenator_contract_bench::VsaVariant;

#[test]
fn measure_reports_counts_and_runs_each_call() {
    let mut calls = 0u64;
    let m = measure_fn(10, 5, || {
        calls += 1;
        calls
    });
    assert_eq!(calls, 15);
    assert_eq!(m.iters, 10);
    assert_eq!(m.warmup_iters, 5);
    assert_eq!(m.ns_per_iter_divisor(), 10);
}

#[test]
fn measure_with_no_iterations() {
    let m = measure_fn(0, 0, || 1u8);
    assert_eq!(m.iters, 0);
    assert_eq!(m.warmup_iters, 0);
    assert_eq!(m.ns_per_iter_divisor(), 1);
}

#[test]
fn per_iteration_time_divides_total() {
    let m = Measured { iters: 10, warmup_iters: 5, total_ns: 1234 };
    let per_iter = m.total_ns as f64 / m.ns_per_iter_divisor() as f64;
    assert_eq!(per_iter, 123.4);
}

#[test]
fn profile_names_and_counts() {
    assert_eq!(Profile::Quick.as_str(), "quick");
    assert_eq!(Profile::Full.as_str(), "full");
    let quick = BenchConfig { profile: Profile::Quick, seed: 0 };
    let full = BenchConfig { profile: Profile::Full, seed: 0 };
    assert_eq!(quick.warmup_iters(), 32);
    assert_eq!(quick.iters(), 300);
    assert_eq!(full.warmup_iters(), 200);
    assert_eq!(full.iters(), 3_000);
}

#[test]
fn variant_default_is_all() {
    assert_eq!(VsaVariant::default(), VsaVariant::All);
}

#[test]
fn count_labels() {
    assert_eq!(format_count(10_000), "10k");
    assert_eq!(format_count(100_000), "100k");
    assert_eq!(format_count(1_000_000), "1m");
    assert_eq!(format_count(3_000_000), "3m");
    assert_eq!(format_count(1_001_000), "1001k");
    assert_eq!(format_count(1500), "1500");
    assert_eq!(format_count(250), "250");
    assert_eq!(format_count(0), "0");
}
