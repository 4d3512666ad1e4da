use ferris_bench::stats::{mean, sort_samples, summarize, Statistics, BATCHES, MEDIAN_INDEX};

fn descending_tens() -> [u128; 100] {
    let mut samples = [0u128; 100];
    for i in 0..100 {
        samples[i] = (99 - i as u128) * 10;
    }
    samples
}

#[test]
fn a_run_has_a_hundred_batches_and_the_median_is_the_fifty_first() {
    assert_eq!(BATCHES, 100);
    assert_eq!(MEDIAN_INDEX, 50);
}

#[test]
fn sorting_arranges_ascending_and_keeps_every_sample() {
    let sorted = sort_samples(descending_tens());
    for i in 0..100 {
        assert_eq!(sorted[i], i as u128 * 10);
    }
}

#[test]
fn sorting_keeps_repeated_samples() {
    let mut samples = [4u128; 100];
    samples[0] = 9;
    samples[1] = 1;
    samples[50] = 9;
    samples[99] = 1;
    let sorted = sort_samples(samples);
    assert_eq!(sorted[0], 1);
    assert_eq!(sorted[1], 1);
    assert_eq!(sorted[2], 4);
    assert_eq!(sorted[97], 4);
    assert_eq!(sorted[98], 9);
    assert_eq!(sorted[99], 9);
}

#[test]
fn sorting_leaves_sorted_samples_alone() {
    let sorted = sort_samples(sort_samples(descending_tens()));
    assert_eq!(sorted, sort_samples(descending_tens()));
}

#[test]
fn median_is_the_sample_at_sorted_index_fifty() {
    let stats = summarize(&descending_tens());
    assert_eq!(stats.median, 500);
    // The mean of the two middle samples would be 495.
    assert_ne!(stats.median, 495);
}

#[test]
fn statistics_of_known_samples() {
    let stats = summarize(&descending_tens());
    assert_eq!(stats, Statistics { median: 500, average: 495, min: 0, max: 990 });
}

#[test]
fn average_is_the_sum_over_a_hundred_rounded_down() {
    let mut samples = [0u128; 100];
    samples[17] = 199;
    assert_eq!(mean(&samples), 1);
    samples[17] = 99;
    assert_eq!(mean(&samples), 0);
    samples[17] = 100;
    assert_eq!(mean(&samples), 1);
    let mut mixed = [3u128; 100];
    mixed[0] = 50;
    mixed[1] = 51;
    // 98 * 3 + 101 = 395
    assert_eq!(mean(&mixed), 3);
}

#[test]
fn average_of_the_largest_samples_does_not_overflow() {
    let samples = [u128::MAX; 100];
    assert_eq!(mean(&samples), u128::MAX);
    let stats = summarize(&samples);
    assert_eq!(
        stats,
        Statistics { median: u128::MAX, average: u128::MAX, min: u128::MAX, max: u128::MAX }
    );
}

#[test]
fn statistics_of_equal_samples_are_that_sample() {
    let stats = summarize(&[1234u128; 100]);
    assert_eq!(stats, Statistics { median: 1234, average: 1234, min: 1234, max: 1234 });
}

#[test]
fn minimum_median_average_and_maximum_are_ordered() {
    let mut samples = [0u128; 100];
    let mut x: u128 = 12345;
    for i in 0..100 {
        x = (x * 1_103_515_245 + 12_345) % 2_147_483_648;
        samples[i] = x;
    }
    let stats = summarize(&samples);
    assert!(stats.min <= stats.median);
    assert!(stats.median <= stats.max);
    assert!(stats.min <= stats.average);
    assert!(stats.average <= stats.max);
    let sum: u128 = samples.iter().sum();
    assert_eq!(stats.average, sum / 100);
    assert_eq!(stats.min, *samples.iter().min().unwrap());
    assert_eq!(stats.max, *samples.iter().max().unwrap());
}
