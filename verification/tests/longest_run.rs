use nist_randomness::customtypes::{InputFault, TestError};
use nist_randomness::longest_run::{
    calculate_vi_values, count_max_consecutive_ones, get_longest_run_config, perform_test,
    LongestRunConfig, LongestRunStatistic,
};

const NIST_EXAMPLE: &str = "11001100000101010110110001001100111000000000001001001101010100010001001111010110100000001101011111001100111001101101100010110010";

fn pseudo_random_bits(length: usize, seed: u32) -> String {
    let mut state = seed;
    let mut bits = String::with_capacity(length);
    for _ in 0..length {
        state = state.wrapping_mul(1103515245).wrapping_add(12345);
        bits.push(if (state >> 16) & 1 == 1 { '1' } else { '0' });
    }
    bits
}

fn chi_square(statistic: &LongestRunStatistic) -> f64 {
    let blocks = statistic.config.number_of_blocks as f64;
    let mut chi_square = 0.0;
    for (count, pi) in statistic.vi_counts.iter().zip(statistic.config.pi_values.iter()) {
        let expected = blocks * ((*pi as f64) / 10000.0);
        chi_square += ((*count as f64) - expected).powf(2.0) / expected;
    }
    chi_square
}

fn p_value(statistic: &LongestRunStatistic) -> f64 {
    statrs::function::gamma::gamma_ur(
        ((statistic.config.pi_values.len() as f64) - 1.0) * 0.5,
        chi_square(statistic) * 0.5,
    )
}

#[test]
fn longest_run_of_documented_block() {
    assert_eq!(count_max_consecutive_ones(b"110010111"), 3);
}

#[test]
fn longest_run_of_edge_blocks() {
    assert_eq!(count_max_consecutive_ones(b""), 0);
    assert_eq!(count_max_consecutive_ones(b"0"), 0);
    assert_eq!(count_max_consecutive_ones(b"1"), 1);
    assert_eq!(count_max_consecutive_ones(b"0000"), 0);
    assert_eq!(count_max_consecutive_ones(b"1111"), 4);
    assert_eq!(count_max_consecutive_ones(b"1110"), 3);
    assert_eq!(count_max_consecutive_ones(b"0111"), 3);
    assert_eq!(count_max_consecutive_ones(b"1101110"), 3);
    assert_eq!(count_max_consecutive_ones(b"1110110"), 3);
    assert_eq!(count_max_consecutive_ones(b"0101010"), 1);
}

#[test]
fn longest_run_resets_on_every_other_symbol() {
    assert_eq!(count_max_consecutive_ones(b"11x11"), 2);
    assert_eq!(count_max_consecutive_ones(b"1121"), 2);
}

#[test]
fn config_of_first_bucket() {
    for length in [128usize, 129, 1000, 6271] {
        let config = get_longest_run_config(length).unwrap();
        assert_eq!(
            config,
            LongestRunConfig {
                block_size: 8,
                number_of_blocks: length / 8,
                thresholds: (1, 4),
                pi_values: vec![2148, 3672, 2305, 1875],
            }
        );
    }
    assert_eq!(get_longest_run_config(128).unwrap().number_of_blocks, 16);
    assert_eq!(get_longest_run_config(6271).unwrap().number_of_blocks, 783);
}

#[test]
fn config_of_second_bucket() {
    for length in [6272usize, 6273, 100_000, 749_999] {
        let config = get_longest_run_config(length).unwrap();
        assert_eq!(
            config,
            LongestRunConfig {
                block_size: 128,
                number_of_blocks: length / 128,
                thresholds: (4, 9),
                pi_values: vec![1174, 2430, 2493, 1752, 1027, 1124],
            }
        );
    }
    assert_eq!(get_longest_run_config(6272).unwrap().number_of_blocks, 49);
    assert_eq!(get_longest_run_config(749_999).unwrap().number_of_blocks, 5859);
}

#[test]
fn config_of_third_bucket() {
    for length in [750_000usize, 750_001, 1_000_000, usize::MAX] {
        let config = get_longest_run_config(length).unwrap();
        assert_eq!(
            config,
            LongestRunConfig {
                block_size: 10_000,
                number_of_blocks: length / 10_000,
                thresholds: (10, 16),
                pi_values: vec![882, 2092, 2483, 1933, 1208, 675, 727],
            }
        );
    }
    assert_eq!(get_longest_run_config(750_000).unwrap().number_of_blocks, 75);
    assert_eq!(get_longest_run_config(1_000_000).unwrap().number_of_blocks, 100);
}

#[test]
fn config_tables_are_consistent() {
    for length in [128usize, 6272, 750_000] {
        let config = get_longest_run_config(length).unwrap();
        let (min, max) = config.thresholds;
        assert_eq!(config.pi_values.len(), max - min + 1);
        assert_eq!(config.pi_values.iter().sum::<u32>(), 10_000);
        assert!(config.pi_values.iter().all(|pi| *pi > 0));
        assert!(config.block_size * config.number_of_blocks <= length);
        assert!(config.block_size >= max);
        let real: f64 = config.pi_values.iter().map(|pi| (*pi as f64) / 10000.0).sum();
        assert!((real - 1.0).abs() < 1e-12);
    }
}

#[test]
fn config_probabilities_are_the_tabulated_decimals() {
    let config = get_longest_run_config(128).unwrap();
    let real: Vec<f64> = config.pi_values.iter().map(|pi| (*pi as f64) / 10000.0).collect();
    assert_eq!(real, vec![0.2148, 0.3672, 0.2305, 0.1875]);
    let config = get_longest_run_config(6272).unwrap();
    let real: Vec<f64> = config.pi_values.iter().map(|pi| (*pi as f64) / 10000.0).collect();
    assert_eq!(real, vec![0.1174, 0.2430, 0.2493, 0.1752, 0.1027, 0.1124]);
    let config = get_longest_run_config(750_000).unwrap();
    let real: Vec<f64> = config.pi_values.iter().map(|pi| (*pi as f64) / 10000.0).collect();
    assert_eq!(real, vec![0.0882, 0.2092, 0.2483, 0.1933, 0.1208, 0.0675, 0.0727]);
}

#[test]
fn config_rejects_lengths_below_floor() {
    for length in [0usize, 1, 100, 127] {
        assert_eq!(
            get_longest_run_config(length),
            Err(TestError::UnsupportedLength { minimum: 128, actual: length })
        );
    }
}

#[test]
fn vi_values_merge_at_the_thresholds() {
    let outcomes = [0usize, 1, 2, 3, 4, 5, 8, 2, 2];
    assert_eq!(calculate_vi_values(&outcomes, (1, 4)), vec![2, 3, 1, 3]);
}

#[test]
fn vi_values_fill_unobserved_categories_with_zero() {
    assert_eq!(calculate_vi_values(&[], (4, 9)), vec![0, 0, 0, 0, 0, 0]);
    assert_eq!(calculate_vi_values(&[6, 6], (4, 9)), vec![0, 0, 2, 0, 0, 0]);
    assert_eq!(calculate_vi_values(&[128], (4, 9)), vec![0, 0, 0, 0, 0, 1]);
    assert_eq!(calculate_vi_values(&[0], (4, 9)), vec![1, 0, 0, 0, 0, 0]);
}

#[test]
fn vi_values_with_one_category() {
    assert_eq!(calculate_vi_values(&[0, 3, 7, 3], (3, 3)), vec![4]);
}

#[test]
fn vi_values_sum_to_number_of_outcomes() {
    let mut state: u32 = 2024;
    for thresholds in [(1usize, 4usize), (4, 9), (10, 16), (0, 0), (0, 20)] {
        for count in [0usize, 1, 16, 49, 75, 1000] {
            let mut outcomes = Vec::new();
            for _ in 0..count {
                state = state.wrapping_mul(1103515245).wrapping_add(12345);
                outcomes.push(((state >> 16) % 24) as usize);
            }
            let vi_counts = calculate_vi_values(&outcomes, thresholds);
            assert_eq!(vi_counts.len(), thresholds.1 - thresholds.0 + 1);
            assert_eq!(vi_counts.iter().sum::<usize>(), count);
        }
    }
}

#[test]
fn longest_run_counts_of_documented_example() {
    let statistic = perform_test(NIST_EXAMPLE).unwrap();
    assert_eq!(statistic.config.block_size, 8);
    assert_eq!(statistic.config.number_of_blocks, 16);
    assert_eq!(statistic.vi_counts, vec![4, 9, 3, 0]);
    assert!((chi_square(&statistic) - 4.882605).abs() < 1e-6);
    assert!((p_value(&statistic) - 0.180598).abs() < 1e-6);
}

#[test]
fn longest_run_of_all_ones_at_floor() {
    let statistic = perform_test(&"1".repeat(128)).unwrap();
    assert_eq!(
        statistic.config,
        LongestRunConfig {
            block_size: 8,
            number_of_blocks: 16,
            thresholds: (1, 4),
            pi_values: vec![2148, 3672, 2305, 1875],
        }
    );
    assert_eq!(statistic.vi_counts, vec![0, 0, 0, 16]);
    let bits = "1".repeat(128);
    for block in bits.as_bytes().chunks(8) {
        assert_eq!(count_max_consecutive_ones(block), 8);
    }
}

#[test]
fn longest_run_of_all_ones_in_every_bucket() {
    for length in [128usize, 6271, 6272, 750_000] {
        let statistic = perform_test(&"1".repeat(length)).unwrap();
        let categories = statistic.vi_counts.len();
        assert_eq!(statistic.vi_counts[categories - 1], statistic.config.number_of_blocks);
        assert!(statistic.vi_counts[..categories - 1].iter().all(|count| *count == 0));
    }
}

#[test]
fn longest_run_of_all_zeros() {
    let statistic = perform_test(&"0".repeat(6272)).unwrap();
    assert_eq!(statistic.vi_counts, vec![49, 0, 0, 0, 0, 0]);
}

#[test]
fn longest_run_drops_trailing_remainder() {
    let mut bits = "01".repeat(64);
    bits.push_str("1111111");
    let statistic = perform_test(&bits).unwrap();
    assert_eq!(statistic.config.number_of_blocks, 16);
    assert_eq!(statistic.vi_counts, vec![16, 0, 0, 0]);
}

#[test]
fn longest_run_counts_of_generated_sequences() {
    let expected: [(usize, u32, Vec<usize>); 5] = [
        (1000, 1, vec![21, 43, 31, 30]),
        (6272, 7, vec![8, 11, 17, 8, 1, 4]),
        (7000, 99, vec![3, 17, 13, 12, 4, 5]),
        (750_000, 5, vec![1, 20, 2, 13, 12, 21, 6]),
        (760_123, 42, vec![0, 20, 3, 15, 12, 20, 6]),
    ];
    for (length, seed, vi_counts) in expected {
        let statistic = perform_test(&pseudo_random_bits(length, seed)).unwrap();
        assert_eq!(statistic.vi_counts, vi_counts);
        assert_eq!(
            statistic.vi_counts.iter().sum::<usize>(),
            statistic.config.number_of_blocks
        );
        assert_eq!(statistic.vi_counts.len(), statistic.config.pi_values.len());
    }
}

#[test]
fn longest_run_p_value_of_generated_sequence() {
    let statistic = perform_test(&pseudo_random_bits(1000, 1)).unwrap();
    assert!((chi_square(&statistic) - 3.461384582163041).abs() < 1e-9);
    let p = p_value(&statistic);
    assert!((p - 0.3258050538871168).abs() < 1e-9);
    assert!((0.0..=1.0).contains(&p));
}

#[test]
fn longest_run_fails_one_bit_below_floor() {
    assert_eq!(
        perform_test(&"10".repeat(64)[..127]),
        Err(TestError::UnsupportedLength { minimum: 128, actual: 127 })
    );
    assert_eq!(
        perform_test("1"),
        Err(TestError::UnsupportedLength { minimum: 128, actual: 1 })
    );
}

#[test]
fn longest_run_succeeds_at_floor() {
    let statistic = perform_test(&"10".repeat(64)).unwrap();
    assert_eq!(statistic.config.number_of_blocks, 16);
    assert_eq!(statistic.vi_counts, vec![16, 0, 0, 0]);
}

#[test]
fn longest_run_rejects_empty_sequence() {
    assert_eq!(perform_test(""), Err(TestError::InvalidInput(InputFault::Empty)));
}

#[test]
fn longest_run_rejects_invalid_character() {
    let mut bits = "01".repeat(100);
    bits.push('2');
    assert_eq!(perform_test(&bits), Err(TestError::InvalidInput(InputFault::NonBinarySymbol)));
}

#[test]
fn longest_run_reports_invalid_input_before_length() {
    assert_eq!(perform_test("0120"), Err(TestError::InvalidInput(InputFault::NonBinarySymbol)));
}

#[test]
fn longest_run_is_idempotent() {
    let bits = pseudo_random_bits(7000, 99);
    assert_eq!(perform_test(&bits), perform_test(&bits));
    assert_eq!(perform_test("01"), perform_test("01"));
    let first = p_value(&perform_test(&bits).unwrap());
    let second = p_value(&perform_test(&bits).unwrap());
    assert_eq!(first.to_bits(), second.to_bits());
}
