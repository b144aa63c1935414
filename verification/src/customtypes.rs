//! The values the tests hand to their callers: failures and the outcome of
//! validating a candidate sequence.
use vstd::prelude::*;

verus! {

/// Why a candidate sequence is not a bit string.
#[derive(Debug, Clone, Copy, PartialEq, Eq)]
pub enum InputFault {
    /// The sequence holds no symbol at all.
    Empty,
    /// The sequence holds a symbol other than `'0'` and `'1'`.
    NonBinarySymbol,
}

/// Which parameter of a test was refused, with the values that decided it.
#[derive(Debug, Clone, Copy, PartialEq, Eq)]
pub enum ParameterFault {
    /// The template length `given` lies outside the accepted range.
    TemplateLength { given: usize },
    /// The block count `given` is zero or above the accepted maximum.
    BlockCount { given: usize },
    /// The blocks would hold `block_size` bits each, which does not exceed
    /// `floor`, a hundredth of the sequence length.
    BlockSize { block_size: usize, floor: usize },
}

/// Failure of a test. Every failure is found before any statistic is
/// computed, so a failed test yields no partial result.
#[derive(Debug, Clone, Copy, PartialEq, Eq)]
pub enum TestError {
    /// The candidate sequence is empty or holds a non-binary symbol.
    InvalidInput(InputFault),
    /// The sequence has `actual` bits and the test needs at least `minimum`.
    UnsupportedLength { minimum: usize, actual: usize },
    /// A parameter chosen by the caller was refused.
    InvalidParameter(ParameterFault),
}

/// What validation learns about a well-formed bit string.
#[derive(Debug, Clone, Copy, PartialEq, Eq)]
pub struct Validation {
    /// Number of bits in the sequence.
    pub length: usize,
    /// Advisory: the sequence is shorter than the size recommended for the
    /// test, so the test runs but its result carries less confidence.
    pub below_recommended: bool,
}

} // verus!
