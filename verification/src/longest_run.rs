//! The Longest Run of Ones in a Block test.
//!
//! The sequence is cut into blocks whose size depends on its length. The
//! longest run of ones of each block is its outcome; outcomes at or beyond
//! two thresholds are merged into the categories at the thresholds, and the
//! number of blocks in each category is compared with tabulated
//! probabilities. This module selects the configuration and computes the
//! category counts exactly; the chi-square statistic and the p-value follow
//! from them in real arithmetic.
use crate::constants::{
    MAX_LENGTH, MAX_SIZE_M, MID_LENGTH, MID_SIZE_M, MIN_LENGTH, MIN_SIZE_M, ONE, PI_SCALE,
};
use crate::customtypes::TestError;
use crate::utils::{
    as_nats, binary_symbols, block, block_of, input_fault, is_bit_string, lemma_block_within,
    lemma_total_after_increment, lemma_total_of_zeros, symbols, total,
};
use vstd::prelude::*;

verus! {

/// Number of ones at the end of `s`.
pub open spec fn trailing_ones(s: Seq<u8>) -> nat
    decreases s.len(),
{
    if s.len() == 0 || s.last() != ONE {
        0
    } else {
        1 + trailing_ones(s.drop_last())
    }
}

/// Length of the longest run of consecutive ones in `s`: the largest number
/// of ones at the end of any prefix of `s`.
pub open spec fn longest_run(s: Seq<u8>) -> nat
    decreases s.len(),
{
    if s.len() == 0 {
        0
    } else if longest_run(s.drop_last()) >= trailing_ones(s) {
        longest_run(s.drop_last())
    } else {
        trailing_ones(s)
    }
}

/// The `len` symbols of `s` from `start` on are all ones.
pub open spec fn is_run(s: Seq<u8>, start: int, len: int) -> bool {
    &&& 0 <= start
    &&& 0 <= len
    &&& start + len <= s.len()
    &&& forall|k: int| start <= k < start + len ==> s[k] == ONE
}

/// The ones at the end of `s` are a run, and no run that ends where `s`
/// ends is longer.
pub proof fn lemma_trailing_ones(s: Seq<u8>)
    ensures
        trailing_ones(s) <= s.len(),
        is_run(s, s.len() - trailing_ones(s), trailing_ones(s) as int),
        forall|start: int, len: int|
            #[trigger] is_run(s, start, len) && start + len == s.len() ==> len <= trailing_ones(
                s,
            ),
    decreases s.len(),
{
    if s.len() == 0 || s.last() != ONE {
        assert forall|start: int, len: int| #[trigger]
            is_run(s, start, len) && start + len == s.len() implies len <= 0 by {
            if len > 0 {
                assert(s[s.len() - 1] == ONE);
            }
        }
    } else {
        let front = s.drop_last();
        lemma_trailing_ones(front);
        let first = s.len() - trailing_ones(s);
        assert forall|k: int| first <= k < s.len() implies s[k] == ONE by {
            if k < front.len() {
                assert(front[k] == ONE);
            }
        }
        assert forall|start: int, len: int| #[trigger]
            is_run(s, start, len) && start + len == s.len() implies len <= trailing_ones(s) by {
            if len > 0 {
                assert(is_run(front, start, len - 1));
            }
        }
    }
}

/// `longest_run` is what its name says: `s` holds a run of that length and
/// no longer one.
pub proof fn lemma_longest_run_is_maximal(s: Seq<u8>)
    ensures
        longest_run(s) <= s.len(),
        exists|start: int| is_run(s, start, longest_run(s) as int),
        forall|start: int, len: int| #[trigger] is_run(s, start, len) ==> len <= longest_run(s),
    decreases s.len(),
{
    if s.len() == 0 {
        assert(is_run(s, 0, 0));
    } else {
        let front = s.drop_last();
        lemma_longest_run_is_maximal(front);
        lemma_trailing_ones(s);
        if longest_run(front) >= trailing_ones(s) {
            let start = choose|start: int| is_run(front, start, longest_run(front) as int);
            assert forall|k: int| start <= k < start + longest_run(s) implies s[k] == ONE by {
                assert(front[k] == ONE);
            }
            assert(is_run(s, start, longest_run(s) as int));
        } else {
            assert(is_run(s, s.len() - trailing_ones(s), longest_run(s) as int));
        }
        assert forall|start: int, len: int| is_run(s, start, len) implies len <= longest_run(
            s,
        ) by {
            if start + len == s.len() {
            } else {
                assert(is_run(front, start, len));
            }
        }
    }
}

/// A sequence of ones only is one run.
pub proof fn lemma_longest_run_of_ones(s: Seq<u8>)
    requires
        forall|k: int| 0 <= k < s.len() ==> s[k] == ONE,
    ensures
        longest_run(s) == s.len(),
{
    lemma_longest_run_is_maximal(s);
    assert(is_run(s, 0, s.len() as int));
}

/// Gets the longest run of ones in `block`.
pub fn count_max_consecutive_ones(block: &[u8]) -> (max_count: usize)
    ensures
        max_count == longest_run(block@),
{
    let n: usize = block.len();
    let mut max_count: usize = 0;
    let mut current_count: usize = 0;
    let mut i: usize = 0;
    while i < n
        invariant
            n == block@.len(),
            i <= n,
            current_count == trailing_ones(block@.take(i as int)),
            max_count == longest_run(block@.take(i as int)),
            current_count <= i,
            max_count <= i,
        decreases n - i,
    {
        assert(block@.take(i + 1).drop_last() =~= block@.take(i as int));
        if block[i] == ONE {
            current_count += 1;
            if current_count > max_count {
                max_count = current_count;
            }
        } else {
            current_count = 0;
        }
        i += 1;
    }
    assert(block@.take(n as int) =~= block@);
    max_count
}

/// How the test partitions a sequence of a given length and what it
/// compares the category counts with.
#[derive(Debug, PartialEq, Eq)]
pub struct LongestRunConfig {
    /// Block size `M`.
    pub block_size: usize,
    /// Block count `N`; the bits behind the last block take no part.
    pub number_of_blocks: usize,
    /// Merge thresholds `(min, max)`: outcomes up to `min` count as `min`,
    /// outcomes from `max` on count as `max`.
    pub thresholds: (usize, usize),
    /// Probability of each category from `min` to `max`, in units of
    /// `1 / PI_SCALE`.
    pub pi_values: Vec<u32>,
}

/// Mathematical content of a `LongestRunConfig`.
pub struct LongestRunConfigView {
    pub block_size: nat,
    pub number_of_blocks: nat,
    pub thresholds: (nat, nat),
    pub pi_values: Seq<nat>,
}

impl View for LongestRunConfig {
    type V = LongestRunConfigView;

    open spec fn view(&self) -> LongestRunConfigView {
        LongestRunConfigView {
            block_size: self.block_size as nat,
            number_of_blocks: self.number_of_blocks as nat,
            thresholds: (self.thresholds.0 as nat, self.thresholds.1 as nat),
            pi_values: Seq::new(self.pi_values@.len(), |i: int| self.pi_values@[i] as nat),
        }
    }
}

impl LongestRunConfigView {
    /// The configuration is one the test can work with: it has blocks, its
    /// thresholds are in order, and its table gives every category from
    /// `min` to `max` a positive probability, the probabilities summing to
    /// one.
    pub open spec fn well_formed(self) -> bool {
        &&& self.block_size >= 1
        &&& self.number_of_blocks >= 1
        &&& self.thresholds.0 <= self.thresholds.1
        &&& self.pi_values.len() == self.thresholds.1 - self.thresholds.0 + 1
        &&& forall|i: int| 0 <= i < self.pi_values.len() ==> self.pi_values[i] > 0
        &&& total(self.pi_values) == PI_SCALE
    }

    /// The blocks of the configuration fit into a sequence of `length` bits.
    pub open spec fn fits(self, length: nat) -> bool {
        self.block_size * self.number_of_blocks <= length
    }
}

/// Block size for sequences of `length` bits.
pub open spec fn block_size_for(length: nat) -> nat {
    if length < MID_LENGTH {
        MIN_SIZE_M as nat
    } else if length < MAX_LENGTH {
        MID_SIZE_M as nat
    } else {
        MAX_SIZE_M as nat
    }
}

/// Merge thresholds for sequences of `length` bits.
pub open spec fn thresholds_for(length: nat) -> (nat, nat) {
    if length < MID_LENGTH {
        (1, 4)
    } else if length < MAX_LENGTH {
        (4, 9)
    } else {
        (10, 16)
    }
}

/// Tabulated probabilities for sequences of `length` bits, in units of
/// `1 / PI_SCALE`.
pub open spec fn pi_values_for(length: nat) -> Seq<nat> {
    if length < MID_LENGTH {
        seq![2148, 3672, 2305, 1875]
    } else if length < MAX_LENGTH {
        seq![1174, 2430, 2493, 1752, 1027, 1124]
    } else {
        seq![882, 2092, 2483, 1933, 1208, 675, 727]
    }
}

/// The configuration for sequences of `length` bits, `length` being at
/// least `MIN_LENGTH`: the parameters of the length bucket that holds
/// `length`, with as many blocks as fit into the sequence.
pub open spec fn config_for(length: nat) -> LongestRunConfigView {
    LongestRunConfigView {
        block_size: block_size_for(length),
        number_of_blocks: length / block_size_for(length),
        thresholds: thresholds_for(length),
        pi_values: pi_values_for(length),
    }
}

/// Every configuration the test selects is well formed and fits the
/// sequence it was selected for.
pub proof fn lemma_config_well_formed(length: nat)
    requires
        length >= MIN_LENGTH,
    ensures
        config_for(length).well_formed(),
        config_for(length).fits(length),
{
    let config = config_for(length);
    let size = config.block_size as int;
    assert(size * (length as int / size) <= length && length as int / size >= 1)
        by (nonlinear_arith)
        requires
            1 <= size <= length,
    ;
    let table = config.pi_values;
    reveal_with_fuel(total, 8);
    if length < MID_LENGTH {
        assert(table.drop_last() =~= seq![2148nat, 3672, 2305]);
        assert(table.drop_last().drop_last() =~= seq![2148nat, 3672]);
        assert(table.drop_last().drop_last().drop_last() =~= seq![2148nat]);
    } else if length < MAX_LENGTH {
        let a = table.drop_last();
        let b = a.drop_last();
        let c = b.drop_last();
        let d = c.drop_last();
        let e = d.drop_last();
        assert(a =~= seq![1174nat, 2430, 2493, 1752, 1027]);
        assert(b =~= seq![1174nat, 2430, 2493, 1752]);
        assert(c =~= seq![1174nat, 2430, 2493]);
        assert(d =~= seq![1174nat, 2430]);
        assert(e =~= seq![1174nat]);
    } else {
        let a = table.drop_last();
        let b = a.drop_last();
        let c = b.drop_last();
        let d = c.drop_last();
        let e = d.drop_last();
        let f = e.drop_last();
        assert(a =~= seq![882nat, 2092, 2483, 1933, 1208, 675]);
        assert(b =~= seq![882nat, 2092, 2483, 1933, 1208]);
        assert(c =~= seq![882nat, 2092, 2483, 1933]);
        assert(d =~= seq![882nat, 2092, 2483]);
        assert(e =~= seq![882nat, 2092]);
        assert(f =~= seq![882nat]);
    }
}

/// Evaluates the sequence length and selects the configuration bound to
/// its length bucket.
///
/// Fails with `UnsupportedLength` exactly when `length` is below
/// `MIN_LENGTH`.
pub fn get_longest_run_config(length: usize) -> (r: Result<LongestRunConfig, TestError>)
    ensures
        match r {
            Ok(config) => {
                &&& length >= MIN_LENGTH
                &&& config@ == config_for(length as nat)
                &&& config@.well_formed()
                &&& config@.fits(length as nat)
            },
            Err(e) => length < MIN_LENGTH && e == (TestError::UnsupportedLength {
                minimum: MIN_LENGTH,
                actual: length,
            }),
        },
{
    if length < MIN_LENGTH {
        return Err(TestError::UnsupportedLength { minimum: MIN_LENGTH, actual: length });
    }
    let config = if length < MID_LENGTH {
        LongestRunConfig {
            block_size: MIN_SIZE_M,
            number_of_blocks: length / MIN_SIZE_M,
            thresholds: (1, 4),
            pi_values: vec![2148, 3672, 2305, 1875],
        }
    } else if length < MAX_LENGTH {
        LongestRunConfig {
            block_size: MID_SIZE_M,
            number_of_blocks: length / MID_SIZE_M,
            thresholds: (4, 9),
            pi_values: vec![1174, 2430, 2493, 1752, 1027, 1124],
        }
    } else {
        LongestRunConfig {
            block_size: MAX_SIZE_M,
            number_of_blocks: length / MAX_SIZE_M,
            thresholds: (10, 16),
            pi_values: vec![882, 2092, 2483, 1933, 1208, 675, 727],
        }
    };
    proof {
        assert(config@.pi_values =~= pi_values_for(length as nat));
        lemma_config_well_formed(length as nat);
    }
    Ok(config)
}

/// The category an outcome is counted in: outcomes up to `min` fold into
/// `min`, outcomes from `max` on fold into `max`, the others stand for
/// themselves.
pub open spec fn merge_category(outcome: nat, min: nat, max: nat) -> nat {
    if outcome <= min {
        min
    } else if outcome >= max {
        max
    } else {
        outcome
    }
}

/// Number of outcomes that are counted in `category`.
pub open spec fn category_count(outcomes: Seq<nat>, min: nat, max: nat, category: nat) -> nat
    decreases outcomes.len(),
{
    if outcomes.len() == 0 {
        0
    } else {
        category_count(outcomes.drop_last(), min, max, category) + if merge_category(
            outcomes.last(),
            min,
            max,
        ) == category {
            1nat
        } else {
            0nat
        }
    }
}

/// The counts `v_i` of the categories from `min` to `max`, each of them
/// present, in this order.
pub open spec fn merged_counts(outcomes: Seq<nat>, min: nat, max: nat) -> Seq<nat> {
    Seq::new(
        (max - min + 1) as nat,
        |i: int| category_count(outcomes, min, max, (min + i) as nat),
    )
}

/// Counting one more outcome raises the count of its category by one and
/// leaves the other counts as they are.
pub proof fn lemma_merged_counts_step(outcomes: Seq<nat>, min: nat, max: nat)
    requires
        min <= max,
        outcomes.len() > 0,
    ensures
        ({
            let before = merged_counts(outcomes.drop_last(), min, max);
            let slot = merge_category(outcomes.last(), min, max) - min;
            &&& 0 <= slot < before.len()
            &&& merged_counts(outcomes, min, max) == before.update(slot, before[slot] + 1)
        }),
{
    let before = merged_counts(outcomes.drop_last(), min, max);
    let slot = merge_category(outcomes.last(), min, max) - min;
    assert(merged_counts(outcomes, min, max) =~= before.update(slot, before[slot] + 1));
}

/// Every outcome is counted in exactly one category: the counts sum to the
/// number of outcomes, whatever the outcomes are.
pub proof fn lemma_merged_counts_total(outcomes: Seq<nat>, min: nat, max: nat)
    requires
        min <= max,
    ensures
        merged_counts(outcomes, min, max).len() == max - min + 1,
        total(merged_counts(outcomes, min, max)) == outcomes.len(),
    decreases outcomes.len(),
{
    if outcomes.len() == 0 {
        lemma_total_of_zeros(merged_counts(outcomes, min, max));
    } else {
        lemma_merged_counts_total(outcomes.drop_last(), min, max);
        lemma_merged_counts_step(outcomes, min, max);
        let before = merged_counts(outcomes.drop_last(), min, max);
        let slot = merge_category(outcomes.last(), min, max) - min;
        lemma_total_after_increment(before, slot);
    }
}

/// Calculates the counts `v_i`: how many of the outcomes fall into each
/// category from `thresholds.0` to `thresholds.1`.
///
/// The thresholds have to be in order.
pub fn calculate_vi_values(outcomes: &[usize], thresholds: (usize, usize)) -> (vi_counts: Vec<
    usize,
>)
    requires
        thresholds.0 <= thresholds.1,
        thresholds.1 - thresholds.0 < usize::MAX,
    ensures
        as_nats(vi_counts@) == merged_counts(
            as_nats(outcomes@),
            thresholds.0 as nat,
            thresholds.1 as nat,
        ),
        vi_counts@.len() == thresholds.1 - thresholds.0 + 1,
        total(as_nats(vi_counts@)) == outcomes@.len(),
{
    let min: usize = thresholds.0;
    let max: usize = thresholds.1;
    let categories: usize = max - min + 1;
    let mut vi_counts: Vec<usize> = vec![0; categories];
    let n: usize = outcomes.len();
    let mut i: usize = 0;
    assert(as_nats(vi_counts@) =~= merged_counts(
        as_nats(outcomes@.take(0)),
        min as nat,
        max as nat,
    ));
    while i < n
        invariant
            min <= max,
            categories == max - min + 1,
            n == outcomes@.len(),
            i <= n,
            vi_counts@.len() == categories,
            forall|k: int| 0 <= k < categories ==> vi_counts@[k] <= i,
            as_nats(vi_counts@) == merged_counts(
                as_nats(outcomes@.take(i as int)),
                min as nat,
                max as nat,
            ),
        decreases n - i,
    {
        let outcome: usize = outcomes[i];
        let category: usize = if outcome <= min {
            min
        } else if outcome >= max {
            max
        } else {
            outcome
        };
        let slot: usize = category - min;
        let raised: usize = vi_counts[slot] + 1;
        proof {
            let counted = as_nats(outcomes@.take(i + 1));
            assert(counted.drop_last() =~= as_nats(outcomes@.take(i as int)));
            lemma_merged_counts_step(counted, min as nat, max as nat);
            assert(as_nats(vi_counts@.update(slot as int, raised)) =~= as_nats(
                vi_counts@,
            ).update(slot as int, raised as nat));
        }
        vi_counts[slot] = raised;
        i += 1;
    }
    proof {
        assert(outcomes@.take(n as int) =~= outcomes@);
        lemma_merged_counts_total(as_nats(outcomes@), min as nat, max as nat);
    }
    vi_counts
}

/// The outcome of each of the first `number_of_blocks` blocks of `bits`:
/// the length of its longest run of ones.
pub open spec fn block_outcomes(bits: Seq<u8>, block_size: nat, number_of_blocks: nat) -> Seq<
    nat,
> {
    Seq::new(number_of_blocks, |b: int| longest_run(block(bits, block_size, b as nat)))
}

/// Everything the p-value of the test is computed from.
#[derive(Debug, PartialEq, Eq)]
pub struct LongestRunStatistic {
    /// The configuration selected for the length of the sequence.
    pub config: LongestRunConfig,
    /// The counts `v_i`, aligned index for index with `config.pi_values`.
    pub vi_counts: Vec<usize>,
}

/// Mathematical content of a `LongestRunStatistic`.
pub struct LongestRunView {
    pub config: LongestRunConfigView,
    pub vi_counts: Seq<nat>,
}

impl View for LongestRunStatistic {
    type V = LongestRunView;

    open spec fn view(&self) -> LongestRunView {
        LongestRunView { config: self.config@, vi_counts: as_nats(self.vi_counts@) }
    }
}

/// What the test yields on the sequence `bits`.
///
/// The sequence is validated first and its length examined second; the test
/// fails with the first fault found. Otherwise it counts the blocks whose
/// longest run of ones falls into each category.
pub open spec fn outcome(bits: Seq<char>) -> Result<LongestRunView, TestError> {
    if let Some(fault) = input_fault(bits) {
        Err(TestError::InvalidInput(fault))
    } else if bits.len() < MIN_LENGTH {
        Err(TestError::UnsupportedLength { minimum: MIN_LENGTH, actual: bits.len() as usize })
    } else {
        let config = config_for(bits.len());
        Ok(
            LongestRunView {
                config,
                vi_counts: merged_counts(
                    block_outcomes(symbols(bits), config.block_size, config.number_of_blocks),
                    config.thresholds.0,
                    config.thresholds.1,
                ),
            },
        )
    }
}

/// A run of the test has reported `expected`.
pub open spec fn reports(
    r: Result<LongestRunStatistic, TestError>,
    expected: Result<LongestRunView, TestError>,
) -> bool {
    match r {
        Ok(statistic) => expected == Ok::<LongestRunView, TestError>(statistic@),
        Err(e) => expected == Err::<LongestRunView, TestError>(e),
    }
}

/// Runs the Longest Run of Ones in a Block test up to its exact statistic.
///
/// Fails with `InvalidInput` when `bit_string` is no bit string, else with
/// `UnsupportedLength` when it has fewer than `MIN_LENGTH` bits, and
/// succeeds on all other inputs.
pub fn perform_test(bit_string: &str) -> (r: Result<LongestRunStatistic, TestError>)
    ensures
        reports(r, outcome(bit_string@)),
{
    let bits = match binary_symbols(bit_string) {
        Ok(bits) => bits,
        Err(e) => {
            return Err(e);
        },
    };
    let length: usize = bits.len();
    let config = match get_longest_run_config(length) {
        Ok(config) => config,
        Err(e) => {
            return Err(e);
        },
    };
    let block_size: usize = config.block_size;
    let number_of_blocks: usize = config.number_of_blocks;
    let mut outcomes: Vec<usize> = Vec::new();
    let mut index: usize = 0;
    while index < number_of_blocks
        invariant
            block_size * number_of_blocks <= bits@.len(),
            index <= number_of_blocks,
            outcomes@.len() == index,
            forall|b: int|
                0 <= b < index ==> #[trigger] outcomes@[b] == longest_run(
                    block(bits@, block_size as nat, b as nat),
                ),
        decreases number_of_blocks - index,
    {
        proof {
            lemma_block_within(
                bits@.len(),
                block_size as nat,
                number_of_blocks as nat,
                index as nat,
            );
        }
        let current = block_of(bits, block_size, index);
        let longest: usize = count_max_consecutive_ones(current);
        outcomes.push(longest);
        index += 1;
    }
    assert(as_nats(outcomes@) =~= block_outcomes(
        bits@,
        block_size as nat,
        number_of_blocks as nat,
    ));
    let vi_counts = calculate_vi_values(outcomes.as_slice(), config.thresholds);
    Ok(LongestRunStatistic { config, vi_counts })
}

/// The counts of a successful run sum to the number of blocks, and there
/// is one count for each tabulated probability.
pub proof fn lemma_counts_cover_blocks(bits: Seq<char>)
    requires
        outcome(bits) is Ok,
    ensures
        ({
            let statistic = outcome(bits)->Ok_0;
            &&& statistic.config.well_formed()
            &&& statistic.config.fits(bits.len())
            &&& statistic.vi_counts.len() == statistic.config.pi_values.len()
            &&& total(statistic.vi_counts) == statistic.config.number_of_blocks
        }),
{
    let config = config_for(bits.len());
    lemma_config_well_formed(bits.len());
    lemma_merged_counts_total(
        block_outcomes(symbols(bits), config.block_size, config.number_of_blocks),
        config.thresholds.0,
        config.thresholds.1,
    );
}

/// Outcomes that all fold into one category are all counted there.
pub proof fn lemma_category_count_uniform(
    outcomes: Seq<nat>,
    min: nat,
    max: nat,
    hit: nat,
    category: nat,
)
    requires
        forall|i: int| 0 <= i < outcomes.len() ==> merge_category(outcomes[i], min, max) == hit,
    ensures
        category_count(outcomes, min, max, category) == if category == hit {
            outcomes.len()
        } else {
            0
        },
    decreases outcomes.len(),
{
    if outcomes.len() > 0 {
        lemma_category_count_uniform(outcomes.drop_last(), min, max, hit, category);
    }
}

/// On a sequence of ones only, every block is one run as long as the
/// block, which falls into the last category whatever the length bucket:
/// the last count is the number of blocks and the others are zero.
pub proof fn lemma_all_ones(bits: Seq<char>)
    requires
        bits.len() >= MIN_LENGTH,
        forall|i: int| 0 <= i < bits.len() ==> bits[i] == '1',
    ensures
        outcome(bits) is Ok,
        ({
            let statistic = outcome(bits)->Ok_0;
            let last = statistic.vi_counts.len() - 1;
            &&& statistic.config == config_for(bits.len())
            &&& block_outcomes(
                symbols(bits),
                statistic.config.block_size,
                statistic.config.number_of_blocks,
            ) == Seq::new(statistic.config.number_of_blocks, |b: int| statistic.config.block_size)
            &&& last == statistic.config.thresholds.1 - statistic.config.thresholds.0
            &&& statistic.vi_counts[last] == statistic.config.number_of_blocks
            &&& forall|i: int| 0 <= i < last ==> statistic.vi_counts[i] == 0
        }),
{
    assert(is_bit_string(bits));
    let config = config_for(bits.len());
    let size = config.block_size;
    let count = config.number_of_blocks;
    let (min, max) = config.thresholds;
    lemma_config_well_formed(bits.len());
    let outcomes = block_outcomes(symbols(bits), size, count);
    assert forall|b: int| 0 <= b < count implies outcomes[b] == size by {
        lemma_block_within(bits.len(), size, count, b as nat);
        lemma_longest_run_of_ones(block(symbols(bits), size, b as nat));
    }
    assert(outcomes =~= Seq::new(count, |b: int| size));
    let merged = merged_counts(outcomes, min, max);
    assert forall|i: int| 0 <= i < merged.len() implies merged[i] == if i == max - min {
        count
    } else {
        0
    } by {
        lemma_category_count_uniform(outcomes, min, max, max, (min + i) as nat);
    }
}

/// A bit string passes the test's length floor exactly when it has at
/// least `MIN_LENGTH` bits: one bit less fails with `UnsupportedLength`.
pub proof fn lemma_length_floor(bits: Seq<char>)
    requires
        is_bit_string(bits),
    ensures
        outcome(bits) is Ok <==> bits.len() >= MIN_LENGTH,
        bits.len() < MIN_LENGTH ==> outcome(bits) == Err::<LongestRunView, TestError>(
            TestError::UnsupportedLength { minimum: MIN_LENGTH, actual: bits.len() as usize },
        ),
{
}

/// A sequence that is no bit string fails with `InvalidInput`, whatever
/// its length, and yields no statistic.
pub proof fn lemma_invalid_input_rejected(bits: Seq<char>)
    requires
        !is_bit_string(bits),
    ensures
        outcome(bits) matches Err(TestError::InvalidInput(fault)) && input_fault(bits) == Some(
            fault,
        ),
{
}

/// Two runs of the test on the same sequence report the same failure, or
/// statistics with the same content.
pub proof fn lemma_runs_agree(
    bits: Seq<char>,
    first: Result<LongestRunStatistic, TestError>,
    second: Result<LongestRunStatistic, TestError>,
)
    requires
        reports(first, outcome(bits)),
        reports(second, outcome(bits)),
    ensures
        first is Ok <==> second is Ok,
        first matches Ok(a) ==> second matches Ok(b) && a@ == b@,
        first matches Err(e) ==> second matches Err(f) && e == f,
{
}

} // verus!
