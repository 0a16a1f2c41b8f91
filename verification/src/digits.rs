//! The mathematical model: digit sequences, their canonical form, the number
//! of their non-zero digits and the natural number they denote.
//!
//! Digits are 64-bit words in little-endian order: index 0 holds the least
//! significant digit.

use vstd::prelude::*;

verus! {

/// A digit sequence is canonical when it has no trailing zero digit: it is
/// empty, or its last (most significant) digit is non-zero.
pub open spec fn is_canonical(digits: Seq<u64>) -> bool {
    digits.len() == 0 || digits.last() != 0
}

/// The digit sequence with every trailing zero digit removed.
pub open spec fn trim(digits: Seq<u64>) -> Seq<u64>
    decreases digits.len(),
{
    if is_canonical(digits) {
        digits
    } else {
        trim(digits.drop_last())
    }
}

/// The canonical digits of a single word: none for zero, the word itself
/// otherwise.
pub open spec fn word_digits(word: u64) -> Seq<u64> {
    if word == 0 {
        Seq::empty()
    } else {
        seq![word]
    }
}

/// How many digits of the sequence differ from zero.
pub open spec fn non_zero_count(digits: Seq<u64>) -> nat {
    digits.filter(|d: u64| d != 0).len()
}

/// The natural number that a little-endian digit sequence denotes: the sum
/// of `digits[i] * 2^(64 * i)` over all positions `i`.
pub open spec fn value_of(digits: Seq<u64>) -> nat
    decreases digits.len(),
{
    if digits.len() == 0 {
        0
    } else {
        digits.first() as nat + 0x1_0000_0000_0000_0000 * value_of(digits.drop_first())
    }
}

} // verus!
