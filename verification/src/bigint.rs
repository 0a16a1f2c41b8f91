//! The `BigInt` value type and its operations.

use crate::digits::{is_canonical, non_zero_count, trim, value_of, word_digits};
use crate::laws::{
    lemma_non_zero_count_push, lemma_trim_drops_trailing_zeros, lemma_trim_is_canonical,
    lemma_trim_preserves_value, lemma_word_digits,
};
use vstd::prelude::*;

verus! {

/// A non-negative integer of unbounded magnitude.
pub struct BigInt {
    /// The digits, least significant first. In canonical form the last digit
    /// is non-zero; zero is the empty sequence.
    pub data: Vec<u64>,
}

impl View for BigInt {
    type V = Seq<u64>;

    /// The digit sequence, least significant digit first.
    open spec fn view(&self) -> Seq<u64> {
        self.data@
    }
}

impl BigInt {
    /// The representation invariant: the digits are in canonical form.
    pub open spec fn inv(&self) -> bool {
        is_canonical(self@)
    }

    /// The natural number that this value denotes.
    pub open spec fn value(&self) -> nat {
        value_of(self@)
    }

    /// The value `x`: no digit for zero, the single digit `x` otherwise.
    pub fn new(x: u64) -> (r: Self)
        ensures
            r@ == word_digits(x),
            x == 0 ==> r@ == Seq::<u64>::empty(),
            x != 0 ==> r@ == seq![x],
            r.inv(),
            r.value() == x,
    {
        proof {
            lemma_word_digits(x);
        }
        if x == 0 {
            BigInt { data: vec![] }
        } else {
            BigInt { data: vec![x] }
        }
    }

    /// Tells whether the digits are in canonical form: there is no digit, or
    /// the last digit is non-zero.
    pub fn test_invariant(&self) -> (ok: bool)
        ensures
            ok == self.inv(),
            ok <==> (self@.len() == 0 || self@[self@.len() - 1] != 0),
    {
        if self.data.len() == 0 {
            true
        } else {
            self.data[self.data.len() - 1] != 0
        }
    }

    /// Takes over a little-endian digit vector and removes its trailing zero
    /// digits. Zero digits below the most significant non-zero digit stay.
    pub fn from_vec(mut v: Vec<u64>) -> (r: Self)
        ensures
            r@ == trim(v@),
            r.inv(),
            r@.len() <= v@.len(),
            r@ == v@.take(r@.len() as int),
            forall|i: int| r@.len() <= i < v@.len() ==> v@[i] == 0,
            r.value() == value_of(v@),
    {
        let ghost given = v@;
        while v.len() > 0 && v[v.len() - 1] == 0
            invariant
                trim(v@) == trim(given),
            decreases v.len(),
        {
            let ghost longer = v@;
            v.pop();
            assert(v@ =~= longer.drop_last());
        }
        proof {
            lemma_trim_is_canonical(given);
            lemma_trim_drops_trailing_zeros(given);
            lemma_trim_preserves_value(given);
        }
        BigInt { data: v }
    }

    /// The number of digits; zero has none.
    pub fn get_num_of_digits(&self) -> (n: usize)
        ensures
            n == self@.len(),
    {
        let num_of_digits = self.data.len();
        num_of_digits
    }

    /// Counts the digits that differ from zero. Zero digits below the most
    /// significant digit are legal in canonical form and are not counted.
    pub fn get_num_of_non_zero(&self) -> (count: usize)
        ensures
            count == non_zero_count(self@),
    {
        let mut count: usize = 0;
        let mut i: usize = 0;
        while i < self.data.len()
            invariant
                i <= self.data.len(),
                count <= i,
                count == non_zero_count(self@.take(i as int)),
            decreases self.data.len() - i,
        {
            proof {
                assert(self@.take(i + 1) =~= self@.take(i as int).push(self@[i as int]));
                lemma_non_zero_count_push(self@.take(i as int), self@[i as int]);
            }
            if self.data[i] != 0 {
                count = count + 1;
            }
            i = i + 1;
        }
        assert(self@.take(i as int) =~= self@);
        count
    }
}

impl Clone for BigInt {
    /// A copy with the same digits in storage of its own.
    fn clone(&self) -> (r: Self)
        ensures
            r@ == self@,
            r.inv() == self.inv(),
            r.value() == self.value(),
    {
        BigInt { data: self.data.clone() }
    }
}

} // verus!
