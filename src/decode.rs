//! Reading the text out of a buffer padded with zero bytes on either side.

use vstd::prelude::*;
use vstd::string::StringSliceAdditionalSpecFns;
use vstd::utf8::*;

use crate::padding::{first_nonzero_from, first_zero_from, lemma_first_nonzero_from, lemma_first_zero_at};
use crate::text::utf8_text;

verus! {

/// The bytes of `b` between its leading zero bytes and the next zero byte. Empty
/// when `b` is empty, or when its first non-zero byte is missing or is the last byte.
pub open spec fn interior_span(b: Seq<u8>) -> Seq<u8> {
    let start = first_nonzero_from(b, 0);
    if b.len() == 0 || start >= b.len() - 1 {
        Seq::empty()
    } else {
        b.subrange(start, first_zero_from(b, start))
    }
}

/// The text between leading and trailing zero padding of `bytes`.
///
/// Empty input, and input whose first non-zero byte is missing or is its last
/// byte, give the empty text. Otherwise the span from the first non-zero byte up
/// to the next zero byte is returned, or an error if it is not valid UTF-8.
pub fn bytes_to_str(bytes: &[u8]) -> (r: Result<&str, std::str::Utf8Error>)
    ensures
        r is Ok <==> valid_utf8(interior_span(bytes@)),
        r is Ok ==> r->Ok_0.spec_bytes() == interior_span(bytes@),
{
    let len = bytes.len();
    let mut index: usize = 0;
    while index < len && bytes[index] == 0
        invariant
            index <= len == bytes@.len(),
            forall|j: int| 0 <= j < index ==> bytes@[j] == 0,
        decreases len - index,
    {
        index += 1;
    }
    let start = index;
    proof {
        lemma_first_nonzero_from(bytes@, 0);
        if start < len {
            assert(bytes@[start as int] != 0);
        }
        assert(first_nonzero_from(bytes@, 0) == start) by {
            if first_nonzero_from(bytes@, 0) < start {
                assert(bytes@[first_nonzero_from(bytes@, 0)] == 0);
            }
        }
    }
    if len == 0 || start >= len - 1 {
        let empty = vstd::slice::slice_subrange(bytes, 0, 0);
        proof {
            assert(empty@ =~= Seq::<u8>::empty());
        }
        return utf8_text(empty);
    }
    while index < len && bytes[index] != 0
        invariant
            start <= index <= len == bytes@.len(),
            forall|j: int| start <= j < index ==> bytes@[j] != 0,
        decreases len - index,
    {
        index += 1;
    }
    let stop = index;
    proof {
        lemma_first_zero_at(bytes@, start as int, stop as int);
    }
    let span = vstd::slice::slice_subrange(bytes, start, stop);
    utf8_text(span)
}

} // verus!
