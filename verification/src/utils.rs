//! Validation of candidate sequences, and the notions every test shares:
//! what a bit string is, how its symbols are counted and how it is cut into
//! blocks.
use crate::constants::{ONE, ZERO};
use crate::customtypes::{InputFault, TestError, Validation};
use vstd::prelude::*;
use vstd::string::*;

verus! {

/// The two symbols a bit string may hold.
pub open spec fn is_binary_symbol(c: char) -> bool {
    c == '0' || c == '1'
}

/// A bit string is a non-empty sequence of the symbols `'0'` and `'1'`.
pub open spec fn is_bit_string(s: Seq<char>) -> bool {
    &&& s.len() > 0
    &&& forall|i: int| 0 <= i < s.len() ==> is_binary_symbol(#[trigger] s[i])
}

/// The reason for which `s` is refused, if it is.
pub open spec fn input_fault(s: Seq<char>) -> Option<InputFault> {
    if s.len() == 0 {
        Some(InputFault::Empty)
    } else if !is_bit_string(s) {
        Some(InputFault::NonBinarySymbol)
    } else {
        None
    }
}

/// The codes of the symbols of `s`, one per symbol. For a bit string these
/// are its bytes: `ZERO` for `'0'` and `ONE` for `'1'`.
pub open spec fn symbols(s: Seq<char>) -> Seq<u8> {
    Seq::new(s.len(), |i: int| s[i] as u8)
}

/// Every element of `bytes` is `ZERO` or `ONE`.
pub open spec fn all_binary(bytes: Seq<u8>) -> bool {
    forall|i: int| 0 <= i < bytes.len() ==> #[trigger] bytes[i] == ZERO || bytes[i] == ONE
}

/// The symbols of a bit string are binary codes, and a symbol has the code
/// `ONE` exactly when it is `'1'`.
pub proof fn lemma_symbols_of_bit_string(s: Seq<char>)
    requires
        is_bit_string(s),
    ensures
        symbols(s).len() == s.len(),
        all_binary(symbols(s)),
        forall|i: int| 0 <= i < s.len() ==> (#[trigger] symbols(s)[i] == ONE <==> s[i] == '1'),
        forall|i: int| 0 <= i < s.len() ==> (#[trigger] symbols(s)[i] == ZERO <==> s[i] == '0'),
{
    assert forall|i: int| 0 <= i < s.len() implies (#[trigger] symbols(s)[i] == ZERO
        || symbols(s)[i] == ONE) && (symbols(s)[i] == ONE <==> s[i] == '1') && (symbols(s)[i]
        == ZERO <==> s[i] == '0') by {
        assert(is_binary_symbol(s[i]));
    }
}

/// Number of places of `bits` that hold `symbol`.
pub open spec fn count_of(bits: Seq<u8>, symbol: u8) -> nat
    decreases bits.len(),
{
    if bits.len() == 0 {
        0
    } else {
        count_of(bits.drop_last(), symbol) + if bits.last() == symbol {
            1nat
        } else {
            0nat
        }
    }
}

/// In a sequence of binary codes every place holds a zero or a one, so the
/// two counts make up the length.
pub proof fn lemma_binary_counts(bits: Seq<u8>)
    requires
        all_binary(bits),
    ensures
        count_of(bits, ZERO) + count_of(bits, ONE) == bits.len(),
    decreases bits.len(),
{
    if bits.len() > 0 {
        assert(bits[bits.len() - 1] == ZERO || bits[bits.len() - 1] == ONE);
        lemma_binary_counts(bits.drop_last());
    }
}

/// A sequence that holds one symbol only holds it at every place.
pub proof fn lemma_count_of_uniform(bits: Seq<u8>, symbol: u8)
    requires
        forall|i: int| 0 <= i < bits.len() ==> bits[i] == symbol,
    ensures
        count_of(bits, symbol) == bits.len(),
    decreases bits.len(),
{
    if bits.len() > 0 {
        lemma_count_of_uniform(bits.drop_last(), symbol);
    }
}

/// The counts of `counts` as natural numbers.
pub open spec fn as_nats(counts: Seq<usize>) -> Seq<nat> {
    Seq::new(counts.len(), |i: int| counts[i] as nat)
}

/// Sum of the counts of `counts`.
pub open spec fn total(counts: Seq<nat>) -> nat
    decreases counts.len(),
{
    if counts.len() == 0 {
        0
    } else {
        total(counts.drop_last()) + counts.last()
    }
}

/// Raising one count by one raises the sum by one.
pub proof fn lemma_total_after_increment(counts: Seq<nat>, index: int)
    requires
        0 <= index < counts.len(),
    ensures
        total(counts.update(index, counts[index] + 1)) == total(counts) + 1,
    decreases counts.len(),
{
    let raised = counts.update(index, counts[index] + 1);
    if index == counts.len() - 1 {
        assert(raised.drop_last() =~= counts.drop_last());
    } else {
        lemma_total_after_increment(counts.drop_last(), index);
        assert(raised.drop_last() =~= counts.drop_last().update(
            index,
            counts.drop_last()[index] + 1,
        ));
    }
}

/// Counts that are all zero sum to zero.
pub proof fn lemma_total_of_zeros(counts: Seq<nat>)
    requires
        forall|i: int| 0 <= i < counts.len() ==> counts[i] == 0,
    ensures
        total(counts) == 0,
    decreases counts.len(),
{
    if counts.len() > 0 {
        lemma_total_of_zeros(counts.drop_last());
    }
}

/// The block of `block_size` symbols with the given index, blocks being cut
/// from the start of `bits` one after the other.
pub open spec fn block(bits: Seq<u8>, block_size: nat, index: nat) -> Seq<u8> {
    bits.subrange((index * block_size) as int, ((index + 1) * block_size) as int)
}

/// The block with the given index is part of `bits` as soon as `bits` holds
/// more blocks than that.
pub proof fn lemma_block_within(length: nat, block_size: nat, number_of_blocks: nat, index: nat)
    requires
        block_size * number_of_blocks <= length,
        index < number_of_blocks,
    ensures
        index * block_size + block_size == (index + 1) * block_size,
        (index + 1) * block_size <= length,
{
    assert(index * block_size + block_size == (index + 1) * block_size) by (nonlinear_arith);
    assert((index + 1) * block_size <= block_size * number_of_blocks) by (nonlinear_arith)
        requires
            index + 1 <= number_of_blocks,
    ;
}

/// Borrows one block of `bits`.
pub fn block_of<'a>(bits: &'a [u8], block_size: usize, index: usize) -> (out: &'a [u8])
    requires
        (index + 1) * block_size <= bits@.len(),
    ensures
        out@ == block(bits@, block_size as nat, index as nat),
{
    assert(index * block_size + block_size == (index + 1) * block_size && 0 <= index * block_size)
        by (nonlinear_arith);
    assert(bits@.len() == bits.len());
    let start: usize = index * block_size;
    let end: usize = start + block_size;
    vstd::slice::slice_subrange(bits, start, end)
}

/// Checks that `bit_string` is a bit string and hands out its symbols.
///
/// Fails with `InvalidInput` exactly when the sequence is empty or holds a
/// symbol other than `'0'` and `'1'`.
pub fn binary_symbols<'a>(bit_string: &'a str) -> (r: Result<&'a [u8], TestError>)
    ensures
        match r {
            Ok(bytes) => input_fault(bit_string@) is None && bytes@ == symbols(bit_string@),
            Err(e) => input_fault(bit_string@) matches Some(fault) && e == TestError::InvalidInput(
                fault,
            ),
        },
{
    broadcast use is_ascii_spec_bytes;

    if bit_string.is_empty() {
        return Err(TestError::InvalidInput(InputFault::Empty));
    }
    if !bit_string.is_ascii() {
        proof {
            let k = choose|k: int|
                0 <= k < bit_string@.len() && !('\0' <= #[trigger] bit_string@[k] <= '\u{7f}');
            assert(!is_binary_symbol(bit_string@[k]));
        }
        return Err(TestError::InvalidInput(InputFault::NonBinarySymbol));
    }
    let bytes = bit_string.as_bytes();
    assert(bytes@ =~= symbols(bit_string@));
    let n: usize = bytes.len();
    let mut i: usize = 0;
    while i < n
        invariant
            n == bytes@.len(),
            i <= n,
            is_ascii(bit_string),
            bytes@ == symbols(bit_string@),
            forall|k: int| 0 <= k < i ==> is_binary_symbol(#[trigger] bit_string@[k]),
        decreases n - i,
    {
        let b: u8 = bytes[i];
        if b != ZERO && b != ONE {
            assert(!is_binary_symbol(bit_string@[i as int]));
            return Err(TestError::InvalidInput(InputFault::NonBinarySymbol));
        }
        assert(is_binary_symbol(bit_string@[i as int])) by {
            assert('\0' <= bit_string@[i as int] <= '\u{7f}');
        }
        i += 1;
    }
    Ok(bytes)
}

/// Validates a candidate sequence before a test computes anything.
///
/// Returns the length of the sequence, together with the advisory that the
/// sequence is shorter than `recommended_size`. Fails with `InvalidInput`
/// exactly when the sequence is empty or holds a symbol other than `'0'` and
/// `'1'`; a short sequence is no failure.
pub fn evaluate_bit_string(bit_string: &str, recommended_size: usize) -> (r: Result<
    Validation,
    TestError,
>)
    ensures
        match r {
            Ok(v) => {
                &&& input_fault(bit_string@) is None
                &&& v.length == bit_string@.len()
                &&& v.below_recommended == (bit_string@.len() < recommended_size)
            },
            Err(e) => input_fault(bit_string@) matches Some(fault) && e == TestError::InvalidInput(
                fault,
            ),
        },
{
    match binary_symbols(bit_string) {
        Ok(bytes) => {
            let length: usize = bytes.len();
            Ok(Validation { length, below_recommended: length < recommended_size })
        },
        Err(e) => Err(e),
    }
}

} // verus!
