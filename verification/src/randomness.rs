use vstd::prelude::*;

use crate::digits::{digit_char, digit_str, is_digit};
use crate::helpers::valid_ticket;

verus! {

/// The six integers in `[0, 9]` that `nois::ints_in_range` derives from a
/// 32-byte seed.  The derivation runs a pseudorandom generator seeded with
/// the randomness alone, so the same seed always yields the same digits;
/// this name stands for that function of the seed.
pub uninterp spec fn digits_of_seed(seed: Seq<u8>) -> Seq<u8>;

/// Relies on `nois::ints_in_range`: it returns exactly `count` integers,
/// each in `[begin, end]` (both bounds included), derived deterministically
/// from the seed.
#[verifier::external_body]
fn draw_digits(seed: &[u8; 32]) -> (r: Vec<u8>)
    ensures
        r@ == digits_of_seed(seed@),
        r@.len() == 6,
        forall|i: int| 0 <= i < r@.len() ==> r@[i] <= 9,
{
    nois::ints_in_range(*seed, 6, 0, 9)
}

/// The winning number a seed fixes: each derived digit rendered as one
/// decimal character, in derivation order.
pub open spec fn winning_number_of_seed(seed: Seq<u8>) -> Seq<char> {
    digits_of_seed(seed).map_values(|d: u8| digit_char(d as int))
}

/// Fix the winning number for a draw from the oracle's seed.
pub fn derive_winning_number(seed: &[u8; 32]) -> (r: String)
    ensures
        r@ == winning_number_of_seed(seed@),
        valid_ticket(r@),
{
    let ds = draw_digits(seed);
    let mut s = String::new();
    let mut i: usize = 0;
    while i < ds.len()
        invariant
            0 <= i <= ds@.len(),
            ds@ == digits_of_seed(seed@),
            ds@.len() == 6,
            forall|k: int| 0 <= k < ds@.len() ==> ds@[k] <= 9,
            s@.len() == i,
            forall|j: int| 0 <= j < i ==> s@[j] == digit_char(ds@[j] as int),
        decreases ds@.len() - i,
    {
        let d = digit_str(ds[i]);
        s.append(d);
        i = i + 1;
    }
    proof {
        assert(s@ =~= winning_number_of_seed(seed@));
        assert forall|j: int| 0 <= j < s@.len() implies is_digit(#[trigger] s@[j]) by {
            crate::digits::lemma_digit_char_val(ds@[j] as int);
        }
    }
    s
}

} // verus!
