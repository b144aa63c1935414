//! The Overlapping Template Matching test.
//!
//! The sequence is cut into `N` blocks of `M` bits. For every pattern of `m`
//! bits (a template) the test counts, block by block, how often a window
//! sliding over the block finds the template, and compares the counts with
//! the mean and variance expected of a random sequence. This module computes
//! the counts and the two moments exactly; the chi-square statistic and the
//! p-value follow from them in real arithmetic.
use crate::constants::{
    BLOCK_SIZE_DIVISOR, MAX_BLOCK_COUNT, MAX_TEMPLATE_LEN, MIN_TEMPLATE_LEN, ONE,
    RECOMMENDED_SIZE_OVERLAPPING_TEMPLATE, RECOMMENDED_TEMPLATE_LEN, ZERO,
};
use crate::customtypes::{ParameterFault, TestError};
use crate::utils::{
    all_binary, binary_symbols, block, block_of, input_fault, is_bit_string,
    lemma_block_within, symbols,
};
use vstd::arithmetic::div_mod::lemma_div_denominator;
use vstd::arithmetic::power2::{lemma2_to64, lemma_pow2_pos, lemma_pow2_unfold, pow2};
use vstd::prelude::*;

verus! {

/// The parameter on which the test is refused, if it is. The template length
/// is examined first, then the block count, then the block size that follows
/// from them.
pub open spec fn parameter_fault(
    bit_string_length: usize,
    template_len: usize,
    number_of_blocks: usize,
) -> Option<ParameterFault> {
    if template_len < MIN_TEMPLATE_LEN || template_len > MAX_TEMPLATE_LEN {
        Some(ParameterFault::TemplateLength { given: template_len })
    } else if number_of_blocks == 0 || number_of_blocks > MAX_BLOCK_COUNT {
        Some(ParameterFault::BlockCount { given: number_of_blocks })
    } else if bit_string_length / number_of_blocks <= bit_string_length / BLOCK_SIZE_DIVISOR {
        Some(
            ParameterFault::BlockSize {
                block_size: (bit_string_length / number_of_blocks) as usize,
                floor: (bit_string_length / BLOCK_SIZE_DIVISOR) as usize,
            },
        )
    } else {
        None
    }
}

/// Checks the parameters of the test and derives the block size `M`, the
/// sequence length divided by the block count.
///
/// Fails with `InvalidParameter` exactly when `parameter_fault` names a
/// fault, and then reports that fault.
pub fn evaluate_test_params(
    bit_string_length: usize,
    template_len: usize,
    number_of_blocks: usize,
) -> (r: Result<usize, TestError>)
    ensures
        match r {
            Ok(block_size) => {
                &&& parameter_fault(bit_string_length, template_len, number_of_blocks) is None
                &&& block_size == bit_string_length / number_of_blocks
            },
            Err(e) => {
                &&& parameter_fault(bit_string_length, template_len, number_of_blocks) matches Some(
                    fault,
                )
                &&& e == TestError::InvalidParameter(fault)
            },
        },
{
    if template_len < MIN_TEMPLATE_LEN || template_len > MAX_TEMPLATE_LEN {
        return Err(
            TestError::InvalidParameter(ParameterFault::TemplateLength { given: template_len }),
        );
    }
    if number_of_blocks == 0 || number_of_blocks > MAX_BLOCK_COUNT {
        return Err(
            TestError::InvalidParameter(ParameterFault::BlockCount { given: number_of_blocks }),
        );
    }
    let block_size: usize = bit_string_length / number_of_blocks;
    let floor: usize = bit_string_length / BLOCK_SIZE_DIVISOR;
    if block_size <= floor {
        return Err(TestError::InvalidParameter(ParameterFault::BlockSize { block_size, floor }));
    }
    Ok(block_size)
}

/// Tells whether a template length is one of the recommended ones. A
/// shorter template is accepted, but deserves an advisory.
pub fn is_recommended_template_len(template_len: usize) -> (recommended: bool)
    ensures
        recommended == (RECOMMENDED_TEMPLATE_LEN <= template_len <= MAX_TEMPLATE_LEN),
{
    RECOMMENDED_TEMPLATE_LEN <= template_len && template_len <= MAX_TEMPLATE_LEN
}

/// Accepted parameters cut the sequence into at least one block of at least
/// one bit, and the blocks fit into the sequence.
pub proof fn lemma_accepted_params(
    bit_string_length: usize,
    template_len: usize,
    number_of_blocks: usize,
)
    requires
        parameter_fault(bit_string_length, template_len, number_of_blocks) is None,
    ensures
        MIN_TEMPLATE_LEN <= template_len <= MAX_TEMPLATE_LEN,
        1 <= number_of_blocks < MAX_BLOCK_COUNT,
        1 <= bit_string_length / number_of_blocks,
        (bit_string_length / number_of_blocks) * number_of_blocks <= bit_string_length,
{
    let length = bit_string_length as int;
    let count = number_of_blocks as int;
    assert((length / count) * count <= length) by (nonlinear_arith)
        requires
            0 <= length,
            0 < count,
    ;
}

/// Symbol at `position` of the template with the given index: the template
/// spells the index in binary, most significant bit first, on `template_len`
/// symbols.
pub open spec fn template_symbol(index: nat, template_len: nat, position: int) -> u8 {
    if (index / pow2((template_len - 1 - position) as nat)) % 2 == 1 {
        ONE
    } else {
        ZERO
    }
}

/// The template with the given index among the templates of `template_len`
/// symbols. The indices below `2^template_len` enumerate every pattern of
/// that length once.
pub open spec fn template(index: nat, template_len: nat) -> Seq<u8> {
    Seq::new(template_len, |position: int| template_symbol(index, template_len, position))
}

/// Writes out the template with the given index.
pub fn template_symbols(index: usize, template_len: usize) -> (out: Vec<u8>)
    ensures
        out@ == template(index as nat, template_len as nat),
{
    let mut out: Vec<u8> = vec![ZERO; template_len];
    let mut rest: usize = index;
    let mut done: usize = 0;
    proof {
        lemma2_to64();
    }
    while done < template_len
        invariant
            done <= template_len,
            out@.len() == template_len,
            rest == index as nat / pow2(done as nat),
            forall|j: int|
                template_len - done <= j < template_len ==> out@[j] == template_symbol(
                    index as nat,
                    template_len as nat,
                    j,
                ),
        decreases template_len - done,
    {
        let position: usize = template_len - 1 - done;
        let symbol: u8 = if rest % 2 == 1 {
            ONE
        } else {
            ZERO
        };
        out[position] = symbol;
        proof {
            lemma_pow2_pos(done as nat);
            lemma_pow2_unfold((done + 1) as nat);
            lemma_div_denominator(index as int, pow2(done as nat) as int, 2);
        }
        rest = rest / 2;
        done += 1;
    }
    out
}

/// The number that a pattern of binary codes spells, most significant bit
/// first.
pub open spec fn pattern_value(pattern: Seq<u8>) -> nat
    decreases pattern.len(),
{
    if pattern.len() == 0 {
        0
    } else {
        2 * pattern_value(pattern.drop_last()) + if pattern.last() == ONE {
            1nat
        } else {
            0nat
        }
    }
}

/// A template without its last symbol is the template of half the index,
/// and its last symbol tells whether the index is odd.
pub proof fn lemma_template_prefix(index: nat, template_len: nat)
    requires
        template_len > 0,
    ensures
        template(index, template_len).drop_last() == template(
            index / 2,
            (template_len - 1) as nat,
        ),
        template(index, template_len).last() == if index % 2 == 1 {
            ONE
        } else {
            ZERO
        },
{
    lemma2_to64();
    let shorter = (template_len - 1) as nat;
    assert forall|position: int| 0 <= position < shorter implies template_symbol(
        index,
        template_len,
        position,
    ) == template_symbol(index / 2, shorter, position) by {
        let exponent = (shorter - 1 - position) as nat;
        lemma_pow2_pos(exponent);
        lemma_pow2_unfold(exponent + 1);
        lemma_div_denominator(index as int, 2, pow2(exponent) as int);
    }
    assert(template(index, template_len).drop_last() =~= template(index / 2, shorter));
    assert(template(index, template_len).last() == template_symbol(
        index,
        template_len,
        template_len - 1,
    ));
    assert(pow2(0) == 1);
    assert(index / 1 == index);
}

/// A template has the length asked for and holds binary codes only.
pub proof fn lemma_template_shape(index: nat, template_len: nat)
    ensures
        template(index, template_len).len() == template_len,
        all_binary(template(index, template_len)),
{
}

/// A template spells its index, for every index below `2^template_len`.
pub proof fn lemma_template_value(index: nat, template_len: nat)
    requires
        index < pow2(template_len),
    ensures
        pattern_value(template(index, template_len)) == index,
    decreases template_len,
{
    lemma2_to64();
    if template_len > 0 {
        lemma_pow2_unfold(template_len);
        lemma_template_prefix(index, template_len);
        lemma_template_value(index / 2, (template_len - 1) as nat);
    }
}

/// Every pattern of binary codes is the template of the number it spells.
pub proof fn lemma_template_of_value(pattern: Seq<u8>)
    requires
        all_binary(pattern),
    ensures
        pattern_value(pattern) < pow2(pattern.len()),
        template(pattern_value(pattern), pattern.len()) == pattern,
    decreases pattern.len(),
{
    lemma2_to64();
    if pattern.len() == 0 {
        assert(template(0, 0) =~= pattern);
    } else {
        let front = pattern.drop_last();
        let value = pattern_value(pattern);
        assert(pattern[pattern.len() - 1] == ZERO || pattern[pattern.len() - 1] == ONE);
        lemma_template_of_value(front);
        lemma_pow2_unfold(pattern.len());
        lemma_template_prefix(value, pattern.len());
        assert(value / 2 == pattern_value(front));
        let spelled = template(value, pattern.len());
        assert(spelled.drop_last() == front);
        assert(spelled =~= spelled.drop_last().push(spelled.last()));
        assert(pattern =~= front.push(pattern.last()));
    }
}

/// The indices below `2^template_len` enumerate the patterns of
/// `template_len` binary codes without repetition and without omission.
pub proof fn lemma_templates_enumerate_patterns(template_len: nat)
    ensures
        forall|first: nat, second: nat|
            first < pow2(template_len) && second < pow2(template_len) && first != second
                ==> #[trigger] template(first, template_len) != #[trigger] template(
                second,
                template_len,
            ),
        forall|pattern: Seq<u8>|
            #![trigger all_binary(pattern)]
            all_binary(pattern) && pattern.len() == template_len ==> exists|index: nat|
                index < pow2(template_len) && #[trigger] template(index, template_len)
                    == pattern,
{
    assert forall|first: nat, second: nat|
        first < pow2(template_len) && second < pow2(template_len) && first
            != second implies #[trigger] template(first, template_len) != #[trigger] template(
        second,
        template_len,
    ) by {
        lemma_template_value(first, template_len);
        lemma_template_value(second, template_len);
    }
    assert forall|pattern: Seq<u8>|
        #![trigger all_binary(pattern)]
        all_binary(pattern) && pattern.len() == template_len implies exists|index: nat|
        index < pow2(template_len) && #[trigger] template(index, template_len) == pattern by {
        lemma_template_of_value(pattern);
    }
}

/// The template lies in `block` at `position`.
pub open spec fn occurs_at(block: Seq<u8>, template: Seq<u8>, position: int) -> bool {
    &&& 0 <= position
    &&& position + template.len() <= block.len()
    &&& block.subrange(position, position + template.len()) == template
}

/// Number of hits of a window that slides over `block` from `cursor` on: where
/// the template lies at the cursor the window counts a hit and moves on by
/// the length of the template, elsewhere it moves on by one symbol, until
/// the template no longer fits behind the cursor. An empty template has no
/// hits.
pub open spec fn windowed_count(block: Seq<u8>, template: Seq<u8>, cursor: int) -> nat
    decreases block.len() - cursor,
{
    if template.len() == 0 || cursor < 0 || cursor + template.len() > block.len() {
        0
    } else if occurs_at(block, template, cursor) {
        1 + windowed_count(block, template, cursor + template.len())
    } else {
        windowed_count(block, template, cursor + 1)
    }
}

/// Tells whether the template lies in `block` at `position`.
pub fn template_occurs_at(block: &[u8], template: &[u8], position: usize) -> (found: bool)
    ensures
        found == occurs_at(block@, template@, position as int),
{
    let block_len: usize = block.len();
    let template_len: usize = template.len();
    if position > block_len || template_len > block_len - position {
        return false;
    }
    let mut offset: usize = 0;
    while offset < template_len
        invariant
            block_len == block@.len(),
            template_len == template@.len(),
            position + template_len <= block_len,
            offset <= template_len,
            forall|k: int| 0 <= k < offset ==> block@[position + k] == template@[k],
        decreases template_len - offset,
    {
        if block[position + offset] != template[offset] {
            assert(block@.subrange(position as int, position + template_len)[offset as int]
                != template@[offset as int]);
            return false;
        }
        offset += 1;
    }
    assert(block@.subrange(position as int, position + template_len) =~= template@);
    true
}

/// Counts the hits of the sliding window over the whole of `block`.
///
/// The template must not be empty: the window has to move on a hit.
pub fn count_template_matches(block: &[u8], template: &[u8]) -> (count: usize)
    requires
        template@.len() > 0,
    ensures
        count == windowed_count(block@, template@, 0),
{
    let block_len: usize = block.len();
    let template_len: usize = template.len();
    let mut cursor: usize = 0;
    let mut count: usize = 0;
    while cursor <= block_len && template_len <= block_len - cursor
        invariant
            block_len == block@.len(),
            template_len == template@.len(),
            template_len > 0,
            count <= cursor,
            count + windowed_count(block@, template@, cursor as int) == windowed_count(
                block@,
                template@,
                0,
            ),
        decreases block_len + 1 - cursor,
    {
        if template_occurs_at(block, template, cursor) {
            count += 1;
            cursor += template_len;
        } else {
            cursor += 1;
        }
    }
    count
}

/// A block in which the template lies nowhere has no hit, and a block
/// without a hit is one in which the template lies nowhere.
pub proof fn lemma_no_match_iff_no_occurrence(block: Seq<u8>, template: Seq<u8>)
    requires
        template.len() > 0,
    ensures
        windowed_count(block, template, 0) == 0 <==> forall|position: int|
            !occurs_at(block, template, position),
{
    lemma_no_match_from(block, template, 0);
}

/// From any cursor on, the window has no hit exactly when the template lies
/// nowhere at or behind the cursor.
pub proof fn lemma_no_match_from(block: Seq<u8>, template: Seq<u8>, cursor: int)
    requires
        template.len() > 0,
        0 <= cursor,
    ensures
        windowed_count(block, template, cursor) == 0 <==> forall|position: int|
            cursor <= position ==> !occurs_at(block, template, position),
    decreases block.len() - cursor,
{
    if cursor + template.len() > block.len() {
    } else if occurs_at(block, template, cursor) {
    } else {
        lemma_no_match_from(block, template, cursor + 1);
    }
}

/// The hits of the window do not share symbols: behind the cursor there is
/// room for all of them side by side.
pub proof fn lemma_matches_fit(block: Seq<u8>, template: Seq<u8>, cursor: int)
    requires
        0 <= cursor <= block.len(),
    ensures
        windowed_count(block, template, cursor) * template.len() <= block.len() - cursor,
    decreases block.len() - cursor,
{
    let hits = windowed_count(block, template, cursor);
    if template.len() == 0 || cursor + template.len() > block.len() {
        assert(hits * template.len() == 0) by (nonlinear_arith)
            requires
                hits == 0 || template.len() == 0,
        ;
    } else if occurs_at(block, template, cursor) {
        lemma_matches_fit(block, template, cursor + template.len());
        let later = windowed_count(block, template, cursor + template.len());
        assert((1 + later) * template.len() == template.len() + later * template.len())
            by (nonlinear_arith);
    } else {
        lemma_matches_fit(block, template, cursor + 1);
    }
}

/// Number of places at or behind `from` at which the template lies in
/// `block`, places that share symbols included.
pub open spec fn occurrence_count(block: Seq<u8>, template: Seq<u8>, from: int) -> nat
    decreases block.len() - from,
{
    if template.len() == 0 || from < 0 || from + template.len() > block.len() {
        0
    } else {
        occurrence_count(block, template, from + 1) + if occurs_at(block, template, from) {
            1nat
        } else {
            0nat
        }
    }
}

/// No two places at which the template lies in `block` share a symbol.
pub open spec fn occurrences_apart(block: Seq<u8>, template: Seq<u8>) -> bool {
    forall|first: int, second: int|
        #![trigger occurs_at(block, template, first), occurs_at(block, template, second)]
        occurs_at(block, template, first) && occurs_at(block, template, second) && first
            < second ==> first + template.len() <= second
}

/// Places at which the template does not lie add nothing to the number of
/// its occurrences.
pub proof fn lemma_occurrence_count_skips(
    block: Seq<u8>,
    template: Seq<u8>,
    from: int,
    to: int,
)
    requires
        0 <= from <= to,
        forall|position: int| from <= position < to ==> !occurs_at(block, template, position),
    ensures
        occurrence_count(block, template, from) == occurrence_count(block, template, to),
    decreases to - from,
{
    if from < to {
        lemma_occurrence_count_skips(block, template, from + 1, to);
        if template.len() > 0 && from + template.len() > block.len() {
            assert(occurrence_count(block, template, to) == 0);
        }
    }
}

/// The window never finds more hits than there are places at which the
/// template lies: after a hit it passes over the places that share symbols
/// with the hit.
pub proof fn lemma_window_misses_shared_places(block: Seq<u8>, template: Seq<u8>, cursor: int)
    requires
        0 <= cursor,
    ensures
        windowed_count(block, template, cursor) <= occurrence_count(block, template, cursor),
    decreases block.len() - cursor,
{
    if template.len() == 0 || cursor + template.len() > block.len() {
    } else if occurs_at(block, template, cursor) {
        lemma_window_misses_shared_places(block, template, cursor + template.len());
        lemma_occurrence_count_monotone(block, template, cursor + 1, cursor + template.len());
    } else {
        lemma_window_misses_shared_places(block, template, cursor + 1);
    }
}

/// Fewer places remain to be counted the further the count starts.
pub proof fn lemma_occurrence_count_monotone(
    block: Seq<u8>,
    template: Seq<u8>,
    from: int,
    to: int,
)
    requires
        0 <= from <= to,
    ensures
        occurrence_count(block, template, to) <= occurrence_count(block, template, from),
    decreases to - from,
{
    if from < to {
        lemma_occurrence_count_monotone(block, template, from + 1, to);
        if template.len() > 0 && from + template.len() > block.len() {
            assert(occurrence_count(block, template, to) == 0);
        }
    }
}

/// Where no two occurrences of the template share a symbol, the window
/// finds every one of them: its hits are the occurrences.
pub proof fn lemma_window_finds_separate_occurrences(
    block: Seq<u8>,
    template: Seq<u8>,
    cursor: int,
)
    requires
        0 <= cursor,
        occurrences_apart(block, template),
    ensures
        windowed_count(block, template, cursor) == occurrence_count(block, template, cursor),
    decreases block.len() - cursor,
{
    if template.len() == 0 || cursor + template.len() > block.len() {
    } else if occurs_at(block, template, cursor) {
        lemma_window_finds_separate_occurrences(block, template, cursor + template.len());
        assert forall|position: int|
            cursor + 1 <= position < cursor + template.len() implies !occurs_at(
            block,
            template,
            position,
        ) by {
            if occurs_at(block, template, position) {
                assert(cursor + template.len() <= position);
            }
        }
        lemma_occurrence_count_skips(block, template, cursor + 1, cursor + template.len());
    } else {
        lemma_window_finds_separate_occurrences(block, template, cursor + 1);
    }
}

/// Counts the hits of the template in each of the first `number_of_blocks`
/// blocks of `bits`, in block order.
pub fn template_counters(
    bits: &[u8],
    template: &[u8],
    block_size: usize,
    number_of_blocks: usize,
) -> (counters: Vec<usize>)
    requires
        template@.len() > 0,
        block_size * number_of_blocks <= bits@.len(),
    ensures
        counters@.len() == number_of_blocks,
        forall|b: int|
            0 <= b < number_of_blocks ==> #[trigger] counters@[b] == windowed_count(
                block(bits@, block_size as nat, b as nat),
                template@,
                0,
            ),
{
    let mut counters: Vec<usize> = Vec::new();
    let mut index: usize = 0;
    while index < number_of_blocks
        invariant
            template@.len() > 0,
            block_size * number_of_blocks <= bits@.len(),
            index <= number_of_blocks,
            counters@.len() == index,
            forall|b: int|
                0 <= b < index ==> #[trigger] counters@[b] == windowed_count(
                    block(bits@, block_size as nat, b as nat),
                    template@,
                    0,
                ),
        decreases number_of_blocks - index,
    {
        proof {
            lemma_block_within(
                bits@.len(),
                block_size as nat,
                number_of_blocks as nat,
                index as nat,
            );
        }
        let current = block_of(bits, block_size, index);
        let hits: usize = count_template_matches(current, template);
        counters.push(hits);
        index += 1;
    }
    counters
}

/// Mean and variance of the number of hits in one block of a random
/// sequence, as exact fractions: the mean is `(M - m + 1) / 2^m` and the
/// variance `M * (1 / 2^m - (2m - 1) / 2^(2m))`, which is
/// `M * (2^m - 2m + 1) / 2^(2m)`.
#[derive(Debug, Clone, Copy, PartialEq, Eq)]
pub struct TemplateMoments {
    /// `M - m + 1`: the number of places of a block at which a template
    /// could lie, negative where the block is too short for one.
    pub mean_numerator: i128,
    /// `2^m`.
    pub mean_denominator: u64,
    /// `M * (2^m - 2m + 1)`.
    pub variance_numerator: u128,
    /// `2^(2m)`.
    pub variance_denominator: u64,
}

/// The moments for blocks of `block_size` bits and templates of
/// `template_len` bits.
pub open spec fn moments_of(block_size: nat, template_len: nat) -> TemplateMoments {
    TemplateMoments {
        mean_numerator: (block_size - template_len + 1) as i128,
        mean_denominator: pow2(template_len) as u64,
        variance_numerator: (block_size * (pow2(template_len) - 2 * template_len + 1)) as u128,
        variance_denominator: pow2(2 * template_len) as u64,
    }
}

/// A power of two is at least twice its exponent, from the exponent 1 on.
pub proof fn lemma_pow2_at_least_double(e: nat)
    requires
        e >= 1,
    ensures
        pow2(e) >= 2 * e,
    decreases e,
{
    lemma2_to64();
    if e > 1 {
        lemma_pow2_at_least_double((e - 1) as nat);
        lemma_pow2_unfold(e);
    }
}

/// The variance is positive as soon as a block holds a bit, so a deviation
/// from the mean can be measured against it.
pub proof fn lemma_variance_positive(block_size: nat, template_len: nat)
    requires
        block_size >= 1,
    ensures
        block_size * (pow2(template_len) - 2 * template_len + 1) >= 1,
{
    lemma2_to64();
    if template_len >= 1 {
        lemma_pow2_at_least_double(template_len);
    }
    let factor = pow2(template_len) - 2 * template_len + 1;
    assert(block_size * factor >= 1) by (nonlinear_arith)
        requires
            block_size >= 1,
            factor >= 1,
    ;
}

/// Computes `2^exponent`.
pub fn power_of_two(exponent: usize) -> (power: u64)
    requires
        exponent <= 2 * MAX_TEMPLATE_LEN,
    ensures
        power == pow2(exponent as nat),
        power <= 0x100000,
{
    let mut power: u64 = 1;
    let mut done: usize = 0;
    proof {
        lemma2_to64();
    }
    while done < exponent
        invariant
            done <= exponent <= 20,
            power == pow2(done as nat),
            power <= pow2(20),
            pow2(20) == 0x100000,
        decreases exponent - done,
    {
        proof {
            lemma_pow2_unfold((done + 1) as nat);
            if done + 1 < 20 {
                vstd::arithmetic::power2::lemma_pow2_strictly_increases((done + 1) as nat, 20);
            }
        }
        power = power * 2;
        done += 1;
    }
    power
}

/// Computes the moments for blocks of `block_size` bits and templates of
/// `template_len` bits.
pub fn template_moments(block_size: usize, template_len: usize) -> (moments: TemplateMoments)
    requires
        template_len <= MAX_TEMPLATE_LEN,
    ensures
        moments == moments_of(block_size as nat, template_len as nat),
        moments.mean_numerator == block_size - template_len + 1,
        moments.mean_denominator == pow2(template_len as nat),
        moments.variance_numerator == block_size * (pow2(template_len as nat) - 2 * template_len
            + 1),
        moments.variance_denominator == pow2(2 * template_len as nat),
{
    let mean_denominator: u64 = power_of_two(template_len);
    let variance_denominator: u64 = power_of_two(2 * template_len);
    proof {
        lemma2_to64();
        if template_len >= 1 {
            lemma_pow2_at_least_double(template_len as nat);
        }
    }
    let factor: u64 = mean_denominator + 1 - 2 * (template_len as u64);
    assert(0 <= block_size * factor <= usize::MAX * 0x100000) by (nonlinear_arith)
        requires
            0 <= block_size <= usize::MAX,
            0 <= factor <= 0x100000,
    ;
    let variance_numerator: u128 = (block_size as u128) * (factor as u128);
    let mean_numerator: i128 = (block_size as i128) - (template_len as i128) + 1;
    TemplateMoments { mean_numerator, mean_denominator, variance_numerator, variance_denominator }
}

/// Every count equals the expected mean. As the variance is positive, this
/// is the case in which the chi-square statistic of a template,
/// the sum of `(count - mean)^2 / variance` over the blocks, is exactly
/// zero, and the p-value of the template is one by definition.
pub open spec fn meets_expectation(counters: Seq<usize>, moments: TemplateMoments) -> bool {
    forall|b: int|
        0 <= b < counters.len() ==> #[trigger] counters[b] * moments.mean_denominator
            == moments.mean_numerator
}

/// Tells whether the chi-square statistic of a template with these
/// counters is exactly zero.
pub fn chi_square_is_zero(counters: &[usize], moments: TemplateMoments) -> (zero: bool)
    ensures
        zero == meets_expectation(counters@, moments),
{
    let n: usize = counters.len();
    let mut b: usize = 0;
    while b < n
        invariant
            n == counters@.len(),
            b <= n,
            forall|k: int|
                0 <= k < b ==> #[trigger] counters@[k] * moments.mean_denominator
                    == moments.mean_numerator,
        decreases n - b,
    {
        let count: usize = counters[b];
        assert(0 <= count * moments.mean_denominator <= u128::MAX) by (nonlinear_arith)
            requires
                0 <= count <= u64::MAX,
                0 <= moments.mean_denominator <= u64::MAX,
        ;
        let scaled: u128 = (count as u128) * (moments.mean_denominator as u128);
        if moments.mean_numerator < 0 || scaled != moments.mean_numerator as u128 {
            return false;
        }
        b += 1;
    }
    true
}

/// Everything the p-value of the test is computed from.
#[derive(Debug, PartialEq, Eq)]
pub struct OverlappingTemplateStatistic {
    /// Template length `m`.
    pub template_len: usize,
    /// Block count `N`.
    pub number_of_blocks: usize,
    /// Block size `M`; the bits behind the last block take no part.
    pub block_size: usize,
    /// Advisory: the sequence is shorter than recommended for this test.
    pub below_recommended: bool,
    /// Expected mean and variance of the hits in one block.
    pub moments: TemplateMoments,
    /// `counters[t][b]` is the number of hits of template `t` in block `b`.
    pub counters: Vec<Vec<usize>>,
}

/// Mathematical content of an `OverlappingTemplateStatistic`.
pub struct OverlappingTemplateView {
    pub template_len: nat,
    pub number_of_blocks: nat,
    pub block_size: nat,
    pub below_recommended: bool,
    pub moments: TemplateMoments,
    pub counters: Seq<Seq<nat>>,
}

impl View for OverlappingTemplateStatistic {
    type V = OverlappingTemplateView;

    open spec fn view(&self) -> OverlappingTemplateView {
        OverlappingTemplateView {
            template_len: self.template_len as nat,
            number_of_blocks: self.number_of_blocks as nat,
            block_size: self.block_size as nat,
            below_recommended: self.below_recommended,
            moments: self.moments,
            counters: Seq::new(
                self.counters@.len(),
                |t: int|
                    Seq::new(self.counters@[t]@.len(), |b: int| self.counters@[t]@[b] as nat),
            ),
        }
    }
}

/// Hits of the template with index `t` in each of the `number_of_blocks`
/// blocks of `bits`.
pub open spec fn counters_of_template(
    bits: Seq<u8>,
    block_size: nat,
    number_of_blocks: nat,
    template_len: nat,
    t: nat,
) -> Seq<nat> {
    Seq::new(
        number_of_blocks,
        |b: int| windowed_count(block(bits, block_size, b as nat), template(t, template_len), 0),
    )
}

/// What the test yields on the sequence `bits` with templates of
/// `template_len` bits and `number_of_blocks` blocks.
///
/// The sequence is validated first and the parameters second; the test
/// fails with the first fault found. Otherwise it counts the hits of each of
/// the `2^template_len` templates in each block.
pub open spec fn outcome(bits: Seq<char>, template_len: usize, number_of_blocks: usize) -> Result<
    OverlappingTemplateView,
    TestError,
> {
    if let Some(fault) = input_fault(bits) {
        Err(TestError::InvalidInput(fault))
    } else if let Some(fault) = parameter_fault(
        bits.len() as usize,
        template_len,
        number_of_blocks,
    ) {
        Err(TestError::InvalidParameter(fault))
    } else {
        let block_size = bits.len() / (number_of_blocks as nat);
        Ok(
            OverlappingTemplateView {
                template_len: template_len as nat,
                number_of_blocks: number_of_blocks as nat,
                block_size,
                below_recommended: bits.len() < RECOMMENDED_SIZE_OVERLAPPING_TEMPLATE,
                moments: moments_of(block_size, template_len as nat),
                counters: Seq::new(
                    pow2(template_len as nat),
                    |t: int|
                        counters_of_template(
                            symbols(bits),
                            block_size,
                            number_of_blocks as nat,
                            template_len as nat,
                            t as nat,
                        ),
                ),
            },
        )
    }
}

/// A run of the test has reported `expected`.
pub open spec fn reports(
    r: Result<OverlappingTemplateStatistic, TestError>,
    expected: Result<OverlappingTemplateView, TestError>,
) -> bool {
    match r {
        Ok(statistic) => expected == Ok::<OverlappingTemplateView, TestError>(statistic@),
        Err(e) => expected == Err::<OverlappingTemplateView, TestError>(e),
    }
}

/// Runs the Overlapping Template Matching test up to its exact statistic.
///
/// Fails with `InvalidInput` when `bit_string` is no bit string, else with
/// `InvalidParameter` when the parameters are refused, and succeeds on all
/// other inputs.
pub fn perform_test(bit_string: &str, template_len: usize, number_of_blocks: usize) -> (r: Result<
    OverlappingTemplateStatistic,
    TestError,
>)
    ensures
        reports(r, outcome(bit_string@, template_len, number_of_blocks)),
{
    let bits = match binary_symbols(bit_string) {
        Ok(bits) => bits,
        Err(e) => {
            return Err(e);
        },
    };
    let length: usize = bits.len();
    let block_size: usize = match evaluate_test_params(length, template_len, number_of_blocks) {
        Ok(block_size) => block_size,
        Err(e) => {
            return Err(e);
        },
    };
    proof {
        lemma_accepted_params(length, template_len, number_of_blocks);
        assert(block_size * number_of_blocks <= length) by (nonlinear_arith)
            requires
                (length / number_of_blocks) * number_of_blocks <= length,
                block_size == length / number_of_blocks,
        ;
    }
    let template_count: usize = power_of_two(template_len) as usize;
    let moments = template_moments(block_size, template_len);
    let mut counters: Vec<Vec<usize>> = Vec::new();
    let mut index: usize = 0;
    while index < template_count
        invariant
            bits@ == symbols(bit_string@),
            MIN_TEMPLATE_LEN <= template_len <= MAX_TEMPLATE_LEN,
            block_size * number_of_blocks <= bits@.len(),
            template_count == pow2(template_len as nat),
            index <= template_count,
            counters@.len() == index,
            forall|t: int|
                0 <= t < index ==> {
                    &&& (#[trigger] counters@[t])@.len() == number_of_blocks
                    &&& forall|b: int|
                        0 <= b < number_of_blocks ==> #[trigger] counters@[t]@[b]
                            == counters_of_template(
                            bits@,
                            block_size as nat,
                            number_of_blocks as nat,
                            template_len as nat,
                            t as nat,
                        )[b]
                },
        decreases template_count - index,
    {
        let pattern = template_symbols(index, template_len);
        let row = template_counters(bits, pattern.as_slice(), block_size, number_of_blocks);
        counters.push(row);
        index += 1;
    }
    let statistic = OverlappingTemplateStatistic {
        template_len,
        number_of_blocks,
        block_size,
        below_recommended: length < RECOMMENDED_SIZE_OVERLAPPING_TEMPLATE,
        moments,
        counters,
    };
    proof {
        let expected = outcome(bit_string@, template_len, number_of_blocks);
        assert(expected is Ok);
        assert(statistic@.counters =~~= expected->Ok_0.counters);
    }
    Ok(statistic)
}

/// A successful run has one row of counters for each of the
/// `2^template_len` templates and one counter in each row for each block;
/// the hits a counter stands for fit side by side into a block.
pub proof fn lemma_statistic_shape(bits: Seq<char>, template_len: usize, number_of_blocks: usize)
    requires
        outcome(bits, template_len, number_of_blocks) is Ok,
    ensures
        ({
            let statistic = outcome(bits, template_len, number_of_blocks)->Ok_0;
            &&& statistic.block_size * statistic.number_of_blocks <= bits.len()
            &&& statistic.counters.len() == pow2(template_len as nat)
            &&& forall|t: int|
                0 <= t < statistic.counters.len() ==> (#[trigger] statistic.counters[t]).len()
                    == number_of_blocks
            &&& forall|t: int, b: int|
                0 <= t < statistic.counters.len() && 0 <= b < number_of_blocks
                    ==> #[trigger] statistic.counters[t][b] * template_len
                    <= statistic.block_size
        }),
{
    let statistic = outcome(bits, template_len, number_of_blocks)->Ok_0;
    let size = statistic.block_size;
    let count = number_of_blocks as nat;
    assert(size * count <= bits.len()) by (nonlinear_arith)
        requires
            size == bits.len() / count,
            count > 0,
    ;
    assert forall|t: int, b: int|
        0 <= t < statistic.counters.len() && 0 <= b < number_of_blocks
            implies #[trigger] statistic.counters[t][b] * template_len <= size by {
        lemma_block_within(symbols(bits).len(), size, count, b as nat);
        let current = block(symbols(bits), size, b as nat);
        lemma_matches_fit(current, template(t as nat, template_len as nat), 0);
    }
}

/// A sequence that is no bit string fails with `InvalidInput`, whatever
/// the parameters, and yields no statistic.
pub proof fn lemma_invalid_input_rejected(
    bits: Seq<char>,
    template_len: usize,
    number_of_blocks: usize,
)
    requires
        !is_bit_string(bits),
    ensures
        outcome(bits, template_len, number_of_blocks) matches Err(TestError::InvalidInput(fault))
            && input_fault(bits) == Some(fault),
{
}

/// Two runs of the test on the same sequence with the same parameters
/// report the same failure, or statistics with the same content.
pub proof fn lemma_runs_agree(
    bits: Seq<char>,
    template_len: usize,
    number_of_blocks: usize,
    first: Result<OverlappingTemplateStatistic, TestError>,
    second: Result<OverlappingTemplateStatistic, TestError>,
)
    requires
        reports(first, outcome(bits, template_len, number_of_blocks)),
        reports(second, outcome(bits, template_len, number_of_blocks)),
    ensures
        first is Ok <==> second is Ok,
        first matches Ok(a) ==> second matches Ok(b) && a@ == b@,
        first matches Err(e) ==> second matches Err(f) && e == f,
{
}

} // verus!
