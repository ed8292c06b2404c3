//! Floor division with a non-negative remainder, the primitive under every
//! cycle decomposition of this library.

use vstd::arithmetic::div_mod::{lemma_fundamental_div_mod, lemma_fundamental_div_mod_converse};
use vstd::prelude::*;

verus! {

/// Splits `number_of_periods` into whole cycles of `cycle_length` and what is
/// left over. Unlike Rust's `/` and `%`, the remainder is never negative:
/// `-1` periods is one cycle back with `cycle_length - 1` periods over.
pub fn split_cycles(number_of_periods: i64, cycle_length: i64) -> (r: (i64, i64))
    requires
        cycle_length > 0,
    ensures
        r.0 == number_of_periods as int / cycle_length as int,
        r.1 == number_of_periods as int % cycle_length as int,
        0 <= r.1 < cycle_length,
        number_of_periods == r.0 * cycle_length + r.1,
{
    if number_of_periods >= 0 {
        let cycles: i64 = number_of_periods / cycle_length;
        let remainder: i64 = number_of_periods % cycle_length;
        proof {
            lemma_fundamental_div_mod(number_of_periods as int, cycle_length as int);
            assert(cycle_length * cycles == cycles * cycle_length) by (nonlinear_arith);
        }
        (cycles, remainder)
    } else {
        // Count back from -1 so that the dividend is never negative.
        let back: i64 = -(number_of_periods + 1);
        let q: i64 = back / cycle_length;
        let r: i64 = back % cycle_length;
        let cycles: i64 = -q - 1;
        let remainder: i64 = cycle_length - 1 - r;
        proof {
            lemma_fundamental_div_mod(back as int, cycle_length as int);
            assert(number_of_periods == cycles * cycle_length + remainder) by (nonlinear_arith)
                requires
                    back == q * cycle_length + r,
                    number_of_periods == -back - 1,
                    cycles == -q - 1,
                    remainder == cycle_length - 1 - r,
            ;
            lemma_fundamental_div_mod_converse(
                number_of_periods as int,
                cycle_length as int,
                cycles as int,
                remainder as int,
            );
        }
        (cycles, remainder)
    }
}

} // verus!
