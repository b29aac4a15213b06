use embeddenator_contract_bench::stats::{quantile, recall_hits};

#[test]
fn quantile_nearest_rank() {
    let v = vec![1u64, 2, 3, 4, 5];
    assert_eq!(quantile(&v, 50), 3);
    assert_eq!(quantile(&v, 95), 5);
    assert_eq!(quantile(&v, 99), 5);
    assert_eq!(quantile(&v, 0), 1);
    assert_eq!(quantile(&v, 100), 5);
}

#[test]
fn quantile_rounds_halves_up() {
    let v: Vec<u64> = (0..10).map(|x| x * 10).collect();
    assert_eq!(quantile(&v, 50), 50);
    let w: Vec<u64> = (0..101).collect();
    assert_eq!(quantile(&w, 95), 95);
    assert_eq!(quantile(&w, 99), 99);
}

#[test]
fn quantile_of_nothing_is_zero() {
    assert_eq!(quantile(&Vec::new(), 50), 0);
    assert_eq!(quantile(&vec![7], 99), 7);
}

#[test]
fn recall_of_exact_index_is_full() {
    let exact = vec![4usize, 9, 1, 7];
    assert_eq!(recall_hits(&exact, &exact), 4);
    let reordered = vec![7usize, 1, 9, 4];
    assert_eq!(recall_hits(&reordered, &exact), 4);
}

#[test]
fn recall_counts_common_ids_once() {
    assert_eq!(recall_hits(&vec![1, 2, 3], &vec![3, 4, 5]), 1);
    assert_eq!(recall_hits(&vec![1, 2], &vec![3, 4]), 0);
    assert_eq!(recall_hits(&vec![2, 2, 3], &vec![2, 2, 5]), 1);
    assert_eq!(recall_hits(&Vec::new(), &vec![1]), 0);
    assert_eq!(recall_hits(&vec![1], &Vec::new()), 0);
}

#[test]
fn recall_is_a_fraction() {
    let exact = vec![1usize, 2, 3, 4, 5];
    let approx = vec![5usize, 6, 1, 8, 9];
    let hits = recall_hits(&approx, &exact);
    assert_eq!(hits, 2);
    let recall = hits as f64 / exact.len() as f64;
    assert!((0.0..=1.0).contains(&recall));
}
