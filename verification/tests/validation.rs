use nist_randomness::customtypes::{InputFault, TestError, Validation};
use nist_randomness::utils::{binary_symbols, evaluate_bit_string};

#[test]
fn validation_returns_length_of_bit_string() {
    let validation = evaluate_bit_string("0110100111", 5).unwrap();
    assert_eq!(validation, Validation { length: 10, below_recommended: false });
}

#[test]
fn validation_accepts_single_symbol() {
    assert_eq!(
        evaluate_bit_string("0", 1),
        Ok(Validation { length: 1, below_recommended: false })
    );
    assert_eq!(
        evaluate_bit_string("1", 1),
        Ok(Validation { length: 1, below_recommended: false })
    );
}

#[test]
fn validation_raises_advisory_below_recommended_size() {
    let validation = evaluate_bit_string("0110", 100).unwrap();
    assert_eq!(validation.length, 4);
    assert!(validation.below_recommended);
}

#[test]
fn validation_raises_no_advisory_at_recommended_size() {
    let bits = "01".repeat(50);
    let validation = evaluate_bit_string(&bits, 100).unwrap();
    assert_eq!(validation.length, 100);
    assert!(!validation.below_recommended);
    let shorter = evaluate_bit_string(&bits[..99], 100).unwrap();
    assert_eq!(shorter.length, 99);
    assert!(shorter.below_recommended);
}

#[test]
fn validation_rejects_empty_sequence() {
    assert_eq!(
        evaluate_bit_string("", 100),
        Err(TestError::InvalidInput(InputFault::Empty))
    );
}

#[test]
fn validation_rejects_digit_two() {
    assert_eq!(
        evaluate_bit_string("0101201", 100),
        Err(TestError::InvalidInput(InputFault::NonBinarySymbol))
    );
}

#[test]
fn validation_rejects_symbol_at_either_end() {
    assert_eq!(
        evaluate_bit_string("a0101", 1),
        Err(TestError::InvalidInput(InputFault::NonBinarySymbol))
    );
    assert_eq!(
        evaluate_bit_string("0101\n", 1),
        Err(TestError::InvalidInput(InputFault::NonBinarySymbol))
    );
}

#[test]
fn validation_rejects_blank_and_neighbouring_codes() {
    for bad in ["01 01", "01/01", "01201", "01\u{0}01"] {
        assert_eq!(
            evaluate_bit_string(bad, 1),
            Err(TestError::InvalidInput(InputFault::NonBinarySymbol)),
            "{:?}",
            bad
        );
    }
}

#[test]
fn validation_rejects_symbols_outside_ascii() {
    for bad in ["01\u{e9}01", "\u{661}\u{660}", "0\u{ff11}", "01\u{1f600}"] {
        assert_eq!(
            evaluate_bit_string(bad, 1),
            Err(TestError::InvalidInput(InputFault::NonBinarySymbol)),
            "{:?}",
            bad
        );
    }
}

#[test]
fn binary_symbols_are_the_bytes_of_the_bit_string() {
    assert_eq!(binary_symbols("0110"), Ok(&b"0110"[..]));
    assert_eq!(binary_symbols("1"), Ok(&[0x31u8][..]));
}

#[test]
fn binary_symbols_fail_as_validation_does() {
    assert_eq!(binary_symbols(""), Err(TestError::InvalidInput(InputFault::Empty)));
    assert_eq!(
        binary_symbols("012"),
        Err(TestError::InvalidInput(InputFault::NonBinarySymbol))
    );
}
