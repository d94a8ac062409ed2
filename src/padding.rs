//! Zero-padded buffers: where the logical content ends, and how text is cut
//! and padded to fit the fixed capacity.

use vstd::prelude::*;
use vstd::utf8::*;

verus! {

/// Size in bytes of the buffer that every key carries.
pub const CAPACITY: usize = 64;

/// Index of the first zero byte of `b` at or after `i`, or `b.len()` if there is none.
pub open spec fn first_zero_from(b: Seq<u8>, i: int) -> int
    decreases b.len() - i,
{
    if i < 0 || i >= b.len() {
        if i < 0 { 0 } else { b.len() as int }
    } else if b[i] == 0 {
        i
    } else {
        first_zero_from(b, i + 1)
    }
}

/// Index of the first non-zero byte of `b` at or after `i`, or `b.len()` if there is none.
pub open spec fn first_nonzero_from(b: Seq<u8>, i: int) -> int
    decreases b.len() - i,
{
    if i < 0 || i >= b.len() {
        if i < 0 { 0 } else { b.len() as int }
    } else if b[i] != 0 {
        i
    } else {
        first_nonzero_from(b, i + 1)
    }
}

/// Logical length of a zero-padded buffer: the number of bytes before the first zero byte.
pub open spec fn logical_len(b: Seq<u8>) -> int {
    first_zero_from(b, 0)
}

/// Logical content of a zero-padded buffer: the bytes before the first zero byte.
pub open spec fn logical(b: Seq<u8>) -> Seq<u8> {
    b.take(logical_len(b))
}

/// `n` zero bytes.
pub open spec fn zeros(n: nat) -> Seq<u8> {
    Seq::new(n, |i: int| 0u8)
}

/// The buffer `b` followed by zero bytes up to the capacity.
pub open spec fn padded(b: Seq<u8>) -> Seq<u8> {
    b + zeros((CAPACITY - b.len()) as nat)
}

/// Length of the longest prefix of `b` of at most `n` bytes that is valid UTF-8,
/// found by trimming one byte at a time from `n` downward.
pub open spec fn valid_prefix_len(b: Seq<u8>, n: int) -> int
    decreases n,
{
    if n <= 0 {
        0
    } else if valid_utf8(b.take(n)) {
        n
    } else {
        valid_prefix_len(b, n - 1)
    }
}

/// The bytes that the capacity admits from `b`: at most 64, cut back to valid UTF-8.
pub open spec fn truncated(b: Seq<u8>) -> Seq<u8> {
    let m = if b.len() <= CAPACITY { b.len() as int } else { CAPACITY as int };
    b.take(valid_prefix_len(b, m))
}

/// The first 64 bytes of `b` (all of it if it is shorter).
pub open spec fn capped(b: Seq<u8>) -> Seq<u8> {
    if b.len() <= CAPACITY { b } else { b.take(CAPACITY as int) }
}

/// No byte of `b` is zero.
pub open spec fn zero_free(b: Seq<u8>) -> bool {
    forall|i: int| 0 <= i < b.len() ==> b[i] != 0
}

pub(crate) proof fn lemma_first_zero_from(b: Seq<u8>, i: int)
    requires
        0 <= i <= b.len(),
    ensures
        i <= first_zero_from(b, i) <= b.len(),
        forall|j: int| i <= j < first_zero_from(b, i) ==> b[j] != 0,
        first_zero_from(b, i) < b.len() ==> b[first_zero_from(b, i)] == 0,
    decreases b.len() - i,
{
    if i < b.len() && b[i] != 0 {
        lemma_first_zero_from(b, i + 1);
    }
}

pub(crate) proof fn lemma_first_nonzero_from(b: Seq<u8>, i: int)
    requires
        0 <= i <= b.len(),
    ensures
        i <= first_nonzero_from(b, i) <= b.len(),
        forall|j: int| i <= j < first_nonzero_from(b, i) ==> b[j] == 0,
        first_nonzero_from(b, i) < b.len() ==> b[first_nonzero_from(b, i)] != 0,
    decreases b.len() - i,
{
    if i < b.len() && b[i] == 0 {
        lemma_first_nonzero_from(b, i + 1);
    }
}

/// The first zero byte is determined by any index `n` below which no byte is zero
/// and at which the buffer ends or holds a zero.
pub(crate) proof fn lemma_first_zero_at(b: Seq<u8>, i: int, n: int)
    requires
        0 <= i <= n <= b.len(),
        forall|j: int| i <= j < n ==> b[j] != 0,
        n < b.len() ==> b[n] == 0,
    ensures
        first_zero_from(b, i) == n,
    decreases n - i,
{
    if i < n {
        lemma_first_zero_at(b, i + 1, n);
    }
}

pub(crate) proof fn lemma_zeros_valid(n: nat)
    ensures
        valid_utf8(zeros(n)),
{
    let z = zeros(n);
    assert(z.subrange(0, 0) =~= Seq::<u8>::empty());
    assert(z.subrange(0, n as int) =~= z);
    partial_valid_utf8_extend_ascii_block(z, 0, n as int);
}

/// A prefix that ends at a zero byte of valid UTF-8 is valid UTF-8.
pub(crate) proof fn lemma_valid_prefix_at_zero(b: Seq<u8>, i: int)
    requires
        valid_utf8(b),
        0 <= i <= b.len(),
        i < b.len() ==> b[i] == 0,
    ensures
        valid_utf8(b.take(i)),
{
    if i == b.len() {
        assert(b.take(i) =~= b);
    } else {
        is_char_boundary_iff_is_leading_byte(b, i);
        valid_utf8_split(b, i);
        assert(b.take(i) =~= b.subrange(0, i));
    }
}

/// The logical content of a valid UTF-8 buffer is valid UTF-8.
pub proof fn lemma_logical_valid(b: Seq<u8>)
    requires
        valid_utf8(b),
    ensures
        valid_utf8(logical(b)),
{
    lemma_first_zero_from(b, 0);
    lemma_valid_prefix_at_zero(b, logical_len(b));
}

pub(crate) proof fn lemma_valid_prefix_len(b: Seq<u8>, n: int)
    requires
        0 <= n <= b.len(),
    ensures
        0 <= valid_prefix_len(b, n) <= n,
        valid_utf8(b.take(valid_prefix_len(b, n))),
        forall|j: int| valid_prefix_len(b, n) < j <= n ==> !valid_utf8(#[trigger] b.take(j)),
    decreases n,
{
    if n <= 0 {
        assert(b.take(0) =~= Seq::<u8>::empty());
    } else if !valid_utf8(b.take(n)) {
        lemma_valid_prefix_len(b, n - 1);
    }
}

/// Padding a short buffer leaves its logical content as it was.
pub(crate) proof fn lemma_logical_padded(t: Seq<u8>)
    requires
        t.len() <= CAPACITY,
    ensures
        padded(t).len() == CAPACITY,
        logical(padded(t)) == logical(t),
        zero_free(t) ==> logical(t) == t,
{
    let p = padded(t);
    lemma_first_zero_from(t, 0);
    let n = logical_len(t);
    assert forall|j: int| 0 <= j < n implies p[j] != 0 by {
        assert(p[j] == t[j]);
    }
    if n < t.len() {
        assert(p[n] == t[n]);
    }
    lemma_first_zero_at(p, 0, n);
    assert(logical(p) =~= logical(t));
    if zero_free(t) {
        lemma_first_zero_at(t, 0, t.len() as int);
        assert(logical(t) =~= t);
    }
}

/// A padded buffer whose content is valid UTF-8 is valid UTF-8 as a whole.
pub(crate) proof fn lemma_padded_valid(t: Seq<u8>)
    requires
        t.len() <= CAPACITY,
        valid_utf8(t),
    ensures
        valid_utf8(padded(t)),
        valid_utf8(logical(padded(t))),
{
    lemma_zeros_valid((CAPACITY - t.len()) as nat);
    valid_utf8_concat(t, zeros((CAPACITY - t.len()) as nat));
    lemma_logical_valid(padded(t));
}

/// The logical content of any buffer has no zero byte.
pub(crate) proof fn lemma_logical_zero_free(b: Seq<u8>)
    ensures
        zero_free(logical(b)),
        logical(b).len() <= b.len(),
{
    lemma_first_zero_from(b, 0);
}

/// In valid UTF-8, every position has a character boundary at most three bytes
/// before it, since a character takes at most four bytes.
pub(crate) proof fn lemma_boundary_within_three(b: Seq<u8>, i: int)
    requires
        valid_utf8(b),
        0 <= i <= b.len(),
    ensures
        exists|j: int| i - 3 <= j <= i && 0 <= j && #[trigger] is_char_boundary(b, j),
    decreases b.len(),
{
    assert(is_char_boundary(b, 0));
    if i > 0 {
        let l = length_of_first_scalar(b);
        assert(valid_first_scalar(b));
        assert(1 <= l <= 4 && l <= b.len());
        if i >= l {
            let rest = pop_first_scalar(b);
            assert(rest.len() == b.len() - l);
            lemma_boundary_within_three(rest, i - l);
            let j0 = choose|j: int| i - l - 3 <= j <= i - l && 0 <= j && #[trigger] is_char_boundary(rest, j);
            assert(is_char_boundary(b, j0 + l));
        }
    }
}

} // verus!
