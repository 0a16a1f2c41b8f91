//! What holds of the digit model: canonical form, trimming, the count of
//! non-zero digits and the denoted value, each proved for every sequence.

use crate::digits::{is_canonical, non_zero_count, trim, value_of, word_digits};
use vstd::arithmetic::power::pow;
use vstd::prelude::*;

verus! {

/// Trimming always yields a canonical sequence.
pub proof fn lemma_trim_is_canonical(digits: Seq<u64>)
    ensures
        is_canonical(trim(digits)),
    decreases digits.len(),
{
    if !is_canonical(digits) {
        lemma_trim_is_canonical(digits.drop_last());
    }
}

/// Trimming removes digits from the most significant end only, and only
/// zeros: the result is a prefix of the input, and every digit of the input
/// beyond it is zero.
pub proof fn lemma_trim_drops_trailing_zeros(digits: Seq<u64>)
    ensures
        trim(digits).len() <= digits.len(),
        trim(digits) == digits.take(trim(digits).len() as int),
        forall|i: int| trim(digits).len() <= i < digits.len() ==> digits[i] == 0,
    decreases digits.len(),
{
    let kept = trim(digits).len() as int;
    if !is_canonical(digits) {
        let shorter = digits.drop_last();
        lemma_trim_drops_trailing_zeros(shorter);
        assert(shorter.take(kept) =~= digits.take(kept));
        assert forall|i: int| kept <= i < digits.len() implies digits[i] == 0 by {
            if i < shorter.len() {
                assert(shorter[i] == 0);
            }
        }
    } else {
        assert(digits.take(kept) =~= digits);
    }
}

/// Trimming is the only way to cut a sequence into a canonical prefix and a
/// tail of zeros.
pub proof fn lemma_trim_is_unique(digits: Seq<u64>, prefix: Seq<u64>)
    requires
        prefix.len() <= digits.len(),
        prefix == digits.take(prefix.len() as int),
        is_canonical(prefix),
        forall|i: int| prefix.len() <= i < digits.len() ==> digits[i] == 0,
    ensures
        prefix == trim(digits),
    decreases digits.len(),
{
    if prefix.len() == digits.len() {
        assert(digits.take(prefix.len() as int) =~= digits);
    } else {
        let shorter = digits.drop_last();
        assert(digits.last() == 0);
        assert(shorter.take(prefix.len() as int) =~= prefix);
        lemma_trim_is_unique(shorter, prefix);
    }
}

/// A sequence is canonical exactly when trimming leaves it as it is; so
/// trimming twice is trimming once.
pub proof fn lemma_trim_fixes_canonical(digits: Seq<u64>)
    ensures
        is_canonical(digits) <==> trim(digits) == digits,
        trim(trim(digits)) == trim(digits),
{
    lemma_trim_is_canonical(digits);
    lemma_trim_drops_trailing_zeros(digits);
}

/// Trimming yields the digits of zero, which are none, exactly when every
/// digit is zero.
pub proof fn lemma_trim_of_zeros(digits: Seq<u64>)
    ensures
        trim(digits) == word_digits(0) <==> (forall|i: int|
            0 <= i < digits.len() ==> digits[i] == 0),
{
    lemma_trim_is_canonical(digits);
    lemma_trim_drops_trailing_zeros(digits);
    let kept = trim(digits);
    if kept.len() > 0 {
        assert(digits[kept.len() - 1] == kept.last());
    } else {
        assert(kept =~= word_digits(0));
    }
}

/// Appending a digit adds one to the count of non-zero digits exactly when
/// the digit is non-zero.
pub proof fn lemma_non_zero_count_push(digits: Seq<u64>, digit: u64)
    ensures
        non_zero_count(digits.push(digit)) == non_zero_count(digits) + if digit != 0 {
            1nat
        } else {
            0nat
        },
{
    reveal(Seq::filter);
    assert(digits.push(digit).drop_last() =~= digits);
}

/// No sequence has more non-zero digits than digits, and it has as many
/// exactly when none of its digits is zero.
pub proof fn lemma_non_zero_count_bound(digits: Seq<u64>)
    ensures
        non_zero_count(digits) <= digits.len(),
        non_zero_count(digits) == digits.len() <==> (forall|i: int|
            0 <= i < digits.len() ==> digits[i] != 0),
    decreases digits.len(),
{
    if digits.len() == 0 {
        reveal(Seq::filter);
    } else {
        let shorter = digits.drop_last();
        lemma_non_zero_count_bound(shorter);
        lemma_non_zero_count_push(shorter, digits.last());
        assert(shorter.push(digits.last()) =~= digits);
        if non_zero_count(digits) == digits.len() {
            assert forall|i: int| 0 <= i < digits.len() implies digits[i] != 0 by {
                if i < shorter.len() {
                    assert(shorter[i] != 0);
                }
            }
        }
        if forall|i: int| 0 <= i < digits.len() ==> digits[i] != 0 {
            assert forall|i: int| 0 <= i < shorter.len() implies shorter[i] != 0 by {
                assert(shorter[i] == digits[i]);
            }
        }
    }
}

/// Trimming removes zeros only, so it keeps the count of non-zero digits.
pub proof fn lemma_trim_keeps_non_zero_count(digits: Seq<u64>)
    ensures
        non_zero_count(trim(digits)) == non_zero_count(digits),
    decreases digits.len(),
{
    if !is_canonical(digits) {
        let shorter = digits.drop_last();
        lemma_trim_keeps_non_zero_count(shorter);
        lemma_non_zero_count_push(shorter, 0);
        assert(shorter.push(0) =~= digits);
    }
}

/// The digit at position `i` weighs `2^(64 * i)`: appending a digit at the
/// most significant end adds the digit times the radix to the power of the
/// digits before it.
pub proof fn lemma_value_push(digits: Seq<u64>, digit: u64)
    ensures
        value_of(digits.push(digit)) == value_of(digits) + digit * pow(
            0x1_0000_0000_0000_0000,
            digits.len(),
        ),
    decreases digits.len(),
{
    reveal(pow);
    let longer = digits.push(digit);
    if digits.len() == 0 {
        assert(longer.drop_first() =~= digits);
        assert(pow(0x1_0000_0000_0000_0000, 0) == 1);
    } else {
        let rest = digits.drop_first();
        lemma_value_push(rest, digit);
        assert(longer.drop_first() =~= rest.push(digit));
        let weight = pow(0x1_0000_0000_0000_0000, rest.len());
        assert(pow(0x1_0000_0000_0000_0000, digits.len()) == 0x1_0000_0000_0000_0000 * weight);
        assert(0x1_0000_0000_0000_0000 * (digit * weight) == digit * (0x1_0000_0000_0000_0000
            * weight)) by (nonlinear_arith);
    }
}

/// Appending a zero digit at the most significant end leaves the denoted
/// value unchanged.
pub proof fn lemma_value_push_zero(digits: Seq<u64>)
    ensures
        value_of(digits.push(0)) == value_of(digits),
{
    lemma_value_push(digits, 0);
}

/// Trimming leaves the denoted value unchanged.
pub proof fn lemma_trim_preserves_value(digits: Seq<u64>)
    ensures
        value_of(trim(digits)) == value_of(digits),
    decreases digits.len(),
{
    if !is_canonical(digits) {
        lemma_trim_preserves_value(digits.drop_last());
        lemma_value_push_zero(digits.drop_last());
        assert(digits.drop_last().push(0) =~= digits);
    }
}

/// The digits of a single word are canonical and denote the word.
pub proof fn lemma_word_digits(word: u64)
    ensures
        is_canonical(word_digits(word)),
        value_of(word_digits(word)) == word,
        trim(seq![word]) == word_digits(word),
{
    if word != 0 {
        let single = seq![word];
        assert(single.len() == 1 && single.first() == word && single.last() == word);
        assert(single.drop_first() =~= Seq::<u64>::empty());
        assert(value_of(single.drop_first()) == 0);
    } else {
        assert(value_of(Seq::<u64>::empty()) == 0);
        assert(seq![word].drop_last() =~= Seq::<u64>::empty());
        assert(trim(Seq::<u64>::empty()) == Seq::<u64>::empty());
    }
}

/// A canonical sequence with at least one digit denotes a positive number.
pub proof fn lemma_canonical_value_positive(digits: Seq<u64>)
    requires
        is_canonical(digits),
        digits.len() > 0,
    ensures
        value_of(digits) > 0,
    decreases digits.len(),
{
    let rest = digits.drop_first();
    if rest.len() > 0 {
        assert(rest.last() == digits.last());
        lemma_canonical_value_positive(rest);
    }
}

/// The canonical form of a number is unique: two canonical sequences that
/// denote the same number are the same sequence.
pub proof fn lemma_canonical_form_is_unique(a: Seq<u64>, b: Seq<u64>)
    requires
        is_canonical(a),
        is_canonical(b),
        value_of(a) == value_of(b),
    ensures
        a == b,
    decreases a.len(),
{
    if a.len() == 0 {
        if b.len() > 0 {
            lemma_canonical_value_positive(b);
        }
        assert(a =~= b);
    } else if b.len() == 0 {
        lemma_canonical_value_positive(a);
    } else {
        let a_rest = a.drop_first();
        let b_rest = b.drop_first();
        if a_rest.len() > 0 {
            assert(a_rest.last() == a.last());
        }
        if b_rest.len() > 0 {
            assert(b_rest.last() == b.last());
        }
        lemma_canonical_form_is_unique(a_rest, b_rest);
        assert(a =~= seq![a.first()] + a_rest);
        assert(b =~= seq![b.first()] + b_rest);
    }
}

/// Two sequences denote the same number exactly when trimming makes them
/// equal.
pub proof fn lemma_same_value_same_trim(a: Seq<u64>, b: Seq<u64>)
    ensures
        value_of(a) == value_of(b) <==> trim(a) == trim(b),
{
    lemma_trim_preserves_value(a);
    lemma_trim_preserves_value(b);
    lemma_trim_is_canonical(a);
    lemma_trim_is_canonical(b);
    if value_of(a) == value_of(b) {
        lemma_canonical_form_is_unique(trim(a), trim(b));
    }
}

} // verus!
