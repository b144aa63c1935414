//! The Frequency (Monobit) test.
//!
//! The test asks whether a sequence holds about as many ones as zeros. Its
//! statistic is the distance between the two counts, `S_n`; the p-value is
//! `erfc(S_n / sqrt(n) / sqrt(2))`. This module counts exactly and leaves
//! the last formula to real arithmetic. The other tests of the battery
//! presuppose that this one passed.
use crate::constants::{ONE, RECOMMENDED_SIZE, ZERO};
use crate::customtypes::TestError;
use crate::utils::{
    binary_symbols, count_of, input_fault, is_bit_string, lemma_binary_counts,
    lemma_count_of_uniform, lemma_symbols_of_bit_string, symbols,
};
use vstd::prelude::*;

verus! {

/// Everything the p-value of the test is computed from.
#[derive(Debug, Clone, Copy, PartialEq, Eq)]
pub struct MonobitStatistic {
    /// Number of bits `n` in the sequence.
    pub length: usize,
    /// Number of zeros in the sequence.
    pub zeros: usize,
    /// Number of ones in the sequence.
    pub ones: usize,
    /// The partial sum `S_n`: the distance between the two counts.
    pub partial_sum: usize,
    /// Advisory: the sequence is shorter than recommended for this test.
    pub below_recommended: bool,
}

/// Mathematical content of a `MonobitStatistic`.
pub struct MonobitView {
    pub length: nat,
    pub zeros: nat,
    pub ones: nat,
    pub partial_sum: nat,
    pub below_recommended: bool,
}

impl View for MonobitStatistic {
    type V = MonobitView;

    open spec fn view(&self) -> MonobitView {
        MonobitView {
            length: self.length as nat,
            zeros: self.zeros as nat,
            ones: self.ones as nat,
            partial_sum: self.partial_sum as nat,
            below_recommended: self.below_recommended,
        }
    }
}

/// Distance between two counts.
pub open spec fn distance(a: nat, b: nat) -> nat {
    if a >= b {
        (a - b) as nat
    } else {
        (b - a) as nat
    }
}

/// What the test yields on the sequence `bits`: it fails on a sequence that
/// is no bit string and counts the symbols of every other one.
pub open spec fn outcome(bits: Seq<char>) -> Result<MonobitView, TestError> {
    if let Some(fault) = input_fault(bits) {
        Err(TestError::InvalidInput(fault))
    } else {
        let zeros = count_of(symbols(bits), ZERO);
        let ones = count_of(symbols(bits), ONE);
        Ok(
            MonobitView {
                length: bits.len(),
                zeros,
                ones,
                partial_sum: distance(zeros, ones),
                below_recommended: bits.len() < RECOMMENDED_SIZE,
            },
        )
    }
}

/// A run of the test has reported `expected`.
pub open spec fn reports(
    r: Result<MonobitStatistic, TestError>,
    expected: Result<MonobitView, TestError>,
) -> bool {
    match r {
        Ok(statistic) => expected == Ok::<MonobitView, TestError>(statistic@),
        Err(e) => expected == Err::<MonobitView, TestError>(e),
    }
}

/// Runs the Frequency (Monobit) test up to its exact statistic.
///
/// Fails with `InvalidInput` when `bit_string` is no bit string and
/// succeeds on all other inputs.
pub fn perform_test(bit_string: &str) -> (r: Result<MonobitStatistic, TestError>)
    ensures
        reports(r, outcome(bit_string@)),
{
    let bits = match binary_symbols(bit_string) {
        Ok(bits) => bits,
        Err(e) => {
            return Err(e);
        },
    };
    let length: usize = bits.len();
    let mut zeros: usize = 0;
    let mut i: usize = 0;
    while i < length
        invariant
            length == bits@.len(),
            i <= length,
            zeros == count_of(bits@.take(i as int), ZERO),
            zeros <= i,
        decreases length - i,
    {
        assert(bits@.take(i + 1).drop_last() =~= bits@.take(i as int));
        if bits[i] == ZERO {
            zeros += 1;
        }
        i += 1;
    }
    proof {
        assert(bits@.take(length as int) =~= bits@);
        lemma_symbols_of_bit_string(bit_string@);
        lemma_binary_counts(bits@);
    }
    let ones: usize = length - zeros;
    let partial_sum: usize = if zeros >= ones {
        zeros - ones
    } else {
        ones - zeros
    };
    Ok(
        MonobitStatistic {
            length,
            zeros,
            ones,
            partial_sum,
            below_recommended: length < RECOMMENDED_SIZE,
        },
    )
}

/// The test succeeds on every bit string. Its two counts make up the
/// length, so the partial sum is at most the length and differs from it by
/// an even number.
pub proof fn lemma_statistic_bounds(bits: Seq<char>)
    requires
        is_bit_string(bits),
    ensures
        outcome(bits) is Ok,
        ({
            let statistic = outcome(bits)->Ok_0;
            &&& statistic.length == bits.len()
            &&& statistic.zeros + statistic.ones == statistic.length
            &&& statistic.partial_sum <= statistic.length
            &&& (statistic.length - statistic.partial_sum) % 2 == 0
        }),
{
    lemma_symbols_of_bit_string(bits);
    lemma_binary_counts(symbols(bits));
}

/// On a sequence of identical symbols the partial sum is the length `L`,
/// so the observed value `S_n / sqrt(L)` is `sqrt(L)`.
pub proof fn lemma_uniform_sequence(bits: Seq<char>, symbol: char)
    requires
        bits.len() > 0,
        symbol == '0' || symbol == '1',
        forall|i: int| 0 <= i < bits.len() ==> #[trigger] bits[i] == symbol,
    ensures
        outcome(bits) is Ok,
        outcome(bits)->Ok_0.partial_sum == bits.len(),
{
    assert(is_bit_string(bits));
    lemma_symbols_of_bit_string(bits);
    lemma_binary_counts(symbols(bits));
    lemma_count_of_uniform(symbols(bits), symbol as u8);
}

/// A sequence that is no bit string fails with `InvalidInput` and yields no
/// statistic.
pub proof fn lemma_invalid_input_rejected(bits: Seq<char>)
    requires
        !is_bit_string(bits),
    ensures
        outcome(bits) matches Err(TestError::InvalidInput(fault)) && input_fault(bits) == Some(
            fault,
        ),
{
}

/// Two runs of the test on the same sequence report the same failure or
/// the same statistic.
pub proof fn lemma_runs_agree(
    bits: Seq<char>,
    first: Result<MonobitStatistic, TestError>,
    second: Result<MonobitStatistic, TestError>,
)
    requires
        reports(first, outcome(bits)),
        reports(second, outcome(bits)),
    ensures
        first == second,
{
}

} // verus!
