use kenken_explorer::config::GenerateFile;
use kenken_explorer::experiments::generate::{puzzle_rng, resolve, GenerateArgs};
use kenken_explorer::experiments::histogram::{summarize, trial_rng, trial_seed, Bucket};
use rand::{RngCore, SeedableRng};
use rand_chacha::ChaCha8Rng;
use kenken_explorer::experiments::{uniqueness_str, Uniqueness};

fn b(solutions: usize, count: usize) -> Bucket {
    Bucket { solutions, count }
}

#[test]
fn summary_of_mixed_counts() {
    let counts = vec![2, 1, 1, 3, 100, 1, 2, 100];
    let r = summarize(&counts, 100);
    assert_eq!(r.histogram, vec![b(1, 3), b(2, 2), b(3, 1), b(100, 2)]);
    assert_eq!(r.cap_bucket, 100);
    assert_eq!(r.no_solution_count, 0);
    assert_eq!(r.unique_count, 3);
    assert_eq!(r.multi_solution_count, 5);
}

#[test]
fn summary_counts_unsolvable_puzzles() {
    let counts = vec![0, 1, 0, 5];
    let r = summarize(&counts, 10);
    assert_eq!(r.histogram, vec![b(0, 2), b(1, 1), b(5, 1)]);
    assert_eq!(r.no_solution_count, 2);
    assert_eq!(r.unique_count, 1);
    assert_eq!(r.multi_solution_count, 1);
    assert_eq!(r.cap_bucket, 10);
}

#[test]
fn summary_of_no_trials_is_empty() {
    let r = summarize(&vec![], 100);
    assert!(r.histogram.is_empty());
    assert_eq!(r.no_solution_count, 0);
    assert_eq!(r.unique_count, 0);
    assert_eq!(r.multi_solution_count, 0);
    assert_eq!(r.cap_bucket, 100);
}

#[test]
fn bars_add_up_to_trials_and_classes_partition_trials() {
    let counts: Vec<usize> = (0..200usize).map(|i| (i * 7919) % 13).collect();
    let r = summarize(&counts, 100);
    let total: usize = r.histogram.iter().map(|x| x.count).sum();
    assert_eq!(total, counts.len());
    assert_eq!(r.no_solution_count + r.unique_count + r.multi_solution_count, counts.len());
    for w in r.histogram.windows(2) {
        assert!(w[0].solutions < w[1].solutions);
    }
}

#[test]
fn histogram_ignores_the_order_of_trials() {
    let counts = vec![4, 1, 1, 2, 4, 4, 3];
    let mut reversed = counts.clone();
    reversed.reverse();
    let a = summarize(&counts, 4);
    let c = summarize(&reversed, 4);
    assert_eq!(a.histogram, c.histogram);
    assert_eq!(a.histogram, vec![b(1, 2), b(2, 1), b(3, 1), b(4, 3)]);
    for bar in &a.histogram {
        assert!(bar.solutions <= a.cap_bucket);
    }
}

#[test]
fn trial_seed_is_master_plus_index() {
    assert_eq!(trial_seed(42, 0), 42);
    assert_eq!(trial_seed(42, 5), 47);
    assert_eq!(trial_seed(0, 99), 99);
}

#[test]
fn trial_seed_wraps_at_two_to_the_sixty_four() {
    assert_eq!(trial_seed(u64::MAX, 1), 0);
    assert_eq!(trial_seed(u64::MAX - 1, 3), 1);
}

#[test]
fn trial_seeds_are_distinct_within_a_run() {
    let seeds: Vec<u64> = (0..100usize).map(|i| trial_seed(u64::MAX - 50, i)).collect();
    let mut sorted = seeds.clone();
    sorted.sort();
    sorted.dedup();
    assert_eq!(sorted.len(), seeds.len());
}

#[test]
fn uniqueness_names_are_lower_case() {
    assert_eq!(uniqueness_str(Uniqueness::NoSolution), "none");
    assert_eq!(uniqueness_str(Uniqueness::Unique), "unique");
    assert_eq!(uniqueness_str(Uniqueness::Multiple), "multiple");
}

#[test]
fn trial_generator_is_seeded_from_the_trial_seed() {
    let mut a = trial_rng(42, 5);
    let mut b = ChaCha8Rng::seed_from_u64(47);
    let mut c = trial_rng(42, 6);
    let (x, y, z) = (a.next_u64(), b.next_u64(), c.next_u64());
    assert_eq!(x, y);
    assert_ne!(x, z);
}

#[test]
fn generate_generator_is_seeded_from_the_resolved_seed() {
    let args = GenerateArgs { n: Some(4), seed: Some(7), op_policy: None };
    let resolved = resolve(&args, &GenerateFile::default());
    let mut a = puzzle_rng(&resolved);
    let mut b = ChaCha8Rng::seed_from_u64(7);
    assert_eq!(a.next_u64(), b.next_u64());
}
