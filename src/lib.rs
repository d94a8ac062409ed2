//! A fixed-capacity text key: UTF-8 text of at most 64 bytes held inline in a
//! zero-padded byte array, so that it can be copied freely and always has the
//! same footprint in memory and on disk.

mod decode;
mod key;
mod padding;
mod text;

pub use decode::{bytes_to_str, interior_span};
pub use key::{
    law_long_text_truncated, law_push_empty, law_push_fills, law_raw_round_trip,
    law_short_text_kept, KeyString,
};
pub use padding::{
    capped, first_nonzero_from, first_zero_from, lemma_logical_valid, logical, logical_len, padded,
    truncated, valid_prefix_len, zero_free, zeros, CAPACITY,
};
pub use text::{
    all_digits, decimal_i32, decimal_value, digits_value, is_digit, lemma_lex_cmp_equal, lex_cmp,
};

use vstd::prelude::*;

verus! {

/// Sum of two sizes.
pub fn add(left: usize, right: usize) -> (r: usize)
    requires
        left + right <= usize::MAX,
    ensures
        r == left + right,
{
    left + right
}

} // verus!
