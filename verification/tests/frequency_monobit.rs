use nist_randomness::customtypes::{InputFault, TestError};
use nist_randomness::frequency_monobit::{perform_test, MonobitStatistic};

const NIST_EXAMPLE: &str = "1100100100001111110110101010001000100001011010001100001000110100110001001100011001100010100010111000";

fn p_value(statistic: &MonobitStatistic) -> f64 {
    let observed = (statistic.partial_sum as f64) / (statistic.length as f64).sqrt();
    statrs::function::erf::erfc(observed / f64::sqrt(2.0))
}

#[test]
fn monobit_counts_short_example() {
    let statistic = perform_test("1011010101").unwrap();
    assert_eq!(
        statistic,
        MonobitStatistic { length: 10, zeros: 4, ones: 6, partial_sum: 2, below_recommended: true }
    );
}

#[test]
fn monobit_p_value_of_short_example() {
    let statistic = perform_test("1011010101").unwrap();
    assert!((p_value(&statistic) - 0.527089).abs() < 1e-6);
}

#[test]
fn monobit_counts_hundred_bit_example() {
    let statistic = perform_test(NIST_EXAMPLE).unwrap();
    assert_eq!(statistic.length, 100);
    assert_eq!(statistic.ones, 42);
    assert_eq!(statistic.zeros, 58);
    assert_eq!(statistic.partial_sum, 16);
    assert!(!statistic.below_recommended);
    assert!((p_value(&statistic) - 0.109599).abs() < 1e-6);
}

#[test]
fn monobit_partial_sum_is_symmetric_in_the_symbols() {
    let more_ones = perform_test("1110110").unwrap();
    let more_zeros = perform_test("0001001").unwrap();
    assert_eq!(more_ones.partial_sum, 3);
    assert_eq!(more_zeros.partial_sum, 3);
    assert_eq!(more_ones.ones, more_zeros.zeros);
}

#[test]
fn monobit_balanced_sequence_has_p_value_one() {
    let statistic = perform_test(&"01".repeat(64)).unwrap();
    assert_eq!(statistic.partial_sum, 0);
    assert_eq!(p_value(&statistic), 1.0);
}

#[test]
fn monobit_uniform_sequence_has_partial_sum_equal_to_length() {
    for length in [1usize, 2, 10, 100, 1000, 4096] {
        for symbol in ["0", "1"] {
            let statistic = perform_test(&symbol.repeat(length)).unwrap();
            assert_eq!(statistic.partial_sum, length);
            assert_eq!(statistic.zeros + statistic.ones, length);
            let observed = (statistic.partial_sum as f64) / (statistic.length as f64).sqrt();
            assert!((observed - (length as f64).sqrt()).abs() < 1e-9);
        }
    }
}

#[test]
fn monobit_p_value_of_uniform_sequence_falls_to_zero() {
    let mut previous = 1.0f64;
    for length in [1usize, 4, 16, 64, 256, 1024] {
        let statistic = perform_test(&"1".repeat(length)).unwrap();
        let p = p_value(&statistic);
        assert!((0.0..=1.0).contains(&p));
        assert!(p < previous);
        previous = p;
    }
    assert!(previous < 1e-100);
}

#[test]
fn monobit_p_value_lies_in_unit_interval() {
    let mut state: u32 = 12345;
    for length in [1usize, 7, 100, 1000] {
        let mut bits = String::new();
        for _ in 0..length {
            state = state.wrapping_mul(1103515245).wrapping_add(12345);
            bits.push(if (state >> 16) & 1 == 1 { '1' } else { '0' });
        }
        let statistic = perform_test(&bits).unwrap();
        assert_eq!(statistic.zeros + statistic.ones, length);
        assert!(statistic.partial_sum <= length);
        assert_eq!((length - statistic.partial_sum) % 2, 0);
        let p = p_value(&statistic);
        assert!((0.0..=1.0).contains(&p));
    }
}

#[test]
fn monobit_advisory_below_hundred_bits() {
    assert!(perform_test(&"10".repeat(49)).unwrap().below_recommended);
    assert!(perform_test(&"1".repeat(99)).unwrap().below_recommended);
    assert!(!perform_test(&"1".repeat(100)).unwrap().below_recommended);
}

#[test]
fn monobit_rejects_empty_sequence() {
    assert_eq!(perform_test(""), Err(TestError::InvalidInput(InputFault::Empty)));
}

#[test]
fn monobit_rejects_invalid_character() {
    assert_eq!(
        perform_test("0110210"),
        Err(TestError::InvalidInput(InputFault::NonBinarySymbol))
    );
    assert_eq!(
        perform_test("0110\u{e9}"),
        Err(TestError::InvalidInput(InputFault::NonBinarySymbol))
    );
}

#[test]
fn monobit_is_idempotent() {
    assert_eq!(perform_test(NIST_EXAMPLE), perform_test(NIST_EXAMPLE));
    assert_eq!(perform_test("01x"), perform_test("01x"));
    let first = p_value(&perform_test(NIST_EXAMPLE).unwrap());
    let second = p_value(&perform_test(NIST_EXAMPLE).unwrap());
    assert_eq!(first.to_bits(), second.to_bits());
}
