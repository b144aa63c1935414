//! Fixed parameters of the tests, as NIST SP 800-22 gives them.
use vstd::prelude::*;

verus! {

/// Code of the symbol `'0'`.
pub const ZERO: u8 = 0x30;

/// Code of the symbol `'1'`.
pub const ONE: u8 = 0x31;

/// Sequence length below which a result is reported with an advisory.
pub const RECOMMENDED_SIZE: usize = 100;

/// Sequence length recommended for the Overlapping Template Matching test.
pub const RECOMMENDED_SIZE_OVERLAPPING_TEMPLATE: usize = 1_000_000;

/// Shortest sequence the Longest Run test accepts; lower end of its first
/// length bucket.
pub const MIN_LENGTH: usize = 128;

/// Lower end of the second length bucket of the Longest Run test.
pub const MID_LENGTH: usize = 6272;

/// Lower end of the third length bucket of the Longest Run test.
pub const MAX_LENGTH: usize = 750_000;

/// Block size of the first length bucket.
pub const MIN_SIZE_M: usize = 8;

/// Block size of the second length bucket.
pub const MID_SIZE_M: usize = 128;

/// Block size of the third length bucket.
pub const MAX_SIZE_M: usize = 10_000;

/// Denominator of the tabulated probabilities: an entry `p` of a table
/// stands for the probability `p / PI_SCALE`.
pub const PI_SCALE: u32 = 10_000;

/// Shortest template the Overlapping Template Matching test accepts.
pub const MIN_TEMPLATE_LEN: usize = 2;

/// Longest template the Overlapping Template Matching test accepts.
pub const MAX_TEMPLATE_LEN: usize = 10;

/// Shortest template recommended for the Overlapping Template Matching
/// test; the templates from here to `MAX_TEMPLATE_LEN` are the recommended
/// ones.
pub const RECOMMENDED_TEMPLATE_LEN: usize = 9;

/// Largest block count the Overlapping Template Matching test accepts.
pub const MAX_BLOCK_COUNT: usize = 100;

/// A block of the Overlapping Template Matching test has to hold more bits
/// than the sequence length divided by this number.
pub const BLOCK_SIZE_DIVISOR: usize = 100;

} // verus!
