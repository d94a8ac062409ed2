//! The fixed-capacity key type and the laws it obeys.

use vstd::prelude::*;
use vstd::string::StringSliceAdditionalSpecFns;
use vstd::utf8::*;

use crate::padding::{
    capped, first_zero_from, lemma_boundary_within_three, lemma_first_zero_at, lemma_first_zero_from, lemma_logical_padded,
    lemma_logical_valid, lemma_logical_zero_free, lemma_padded_valid, lemma_valid_prefix_len,
    logical, logical_len, padded, truncated, valid_prefix_len, zero_free, zeros, CAPACITY,
};
use crate::text::{decimal_i32, lemma_lex_cmp_equal, lex_cmp, parse_i32, utf8_text};

verus! {

/// UTF-8 text of at most 64 bytes, stored left-justified in a 64-byte buffer and
/// padded with zero bytes. Its logical content is the part before the first zero byte.
#[derive(Clone, Copy, Debug)]
pub struct KeyString {
    inner: [u8; 64],
}

impl View for KeyString {
    type V = Seq<u8>;

    /// The whole 64-byte buffer, padding included.
    closed spec fn view(&self) -> Seq<u8> {
        self.inner@
    }
}

impl KeyString {
    /// The logical content is valid UTF-8.
    #[verifier::type_invariant]
    spec fn inv(&self) -> bool {
        valid_utf8(logical(self.inner@))
    }

    /// The logical content as bytes.
    pub open spec fn text(&self) -> Seq<u8> {
        logical(self@)
    }

    /// A key with all 64 bytes zero, holding the empty text.
    pub fn new() -> (r: KeyString)
        ensures
            r@ == zeros(CAPACITY as nat),
            r.text() == Seq::<u8>::empty(),
    {
        let inner = [0u8; 64];
        proof {
            assert(inner@ =~= zeros(64));
            lemma_first_zero_from(inner@, 0);
            assert(logical(inner@) =~= Seq::<u8>::empty());
        }
        KeyString { inner }
    }

    /// A key from text: its first 64 bytes, trimmed back one byte at a time until
    /// they are valid UTF-8, then padded with zero bytes. This never fails.
    pub fn from_text(s: &str) -> (r: KeyString)
        ensures
            r@ == padded(truncated(s.spec_bytes())),
    {
        let b = s.as_bytes();
        let mut m: usize = if b.len() <= 64 { b.len() } else { 64 };
        let ghost m0 = m as int;
        while m > 0
            invariant
                m <= m0 <= CAPACITY,
                m0 <= b@.len(),
                valid_prefix_len(b@, m as int) == valid_prefix_len(b@, m0),
            ensures
                m <= m0 <= CAPACITY,
                m0 <= b@.len(),
                valid_prefix_len(b@, m as int) == valid_prefix_len(b@, m0),
                m == 0 || valid_utf8(b@.take(m as int)),
            decreases m,
        {
            let head = vstd::slice::slice_subrange(b, 0, m);
            proof {
                assert(head@ =~= b@.take(m as int));
            }
            if utf8_text(head).is_ok() {
                break;
            }
            m -= 1;
        }
        proof {
            lemma_valid_prefix_len(b@, m0);
        }
        let mut inner = [0u8; 64];
        let mut i: usize = 0;
        proof {
            assert(inner@ =~= padded(b@.take(0)));
        }
        while i < m
            invariant
                i <= m <= CAPACITY,
                m <= b@.len(),
                inner@ == padded(b@.take(i as int)),
            decreases m - i,
        {
            inner[i] = b[i];
            i += 1;
            proof {
                assert(inner@ =~= padded(b@.take(i as int)));
            }
        }
        proof {
            assert(truncated(s.spec_bytes()) == b@.take(m as int));
            lemma_padded_valid(b@.take(m as int));
        }
        KeyString { inner }
    }

    /// A key from raw bytes: their first 64 bytes, padded with zero bytes. Fails
    /// when that 64-byte buffer as a whole is not valid UTF-8.
    pub fn from_bytes(s: &[u8]) -> (r: Result<KeyString, std::str::Utf8Error>)
        ensures
            r is Ok <==> valid_utf8(padded(capped(s@))),
            r is Ok ==> r->Ok_0@ == padded(capped(s@)),
    {
        let m: usize = if s.len() <= 64 { s.len() } else { 64 };
        let mut inner = [0u8; 64];
        let mut i: usize = 0;
        proof {
            assert(inner@ =~= padded(s@.take(0)));
        }
        while i < m
            invariant
                i <= m <= CAPACITY,
                m <= s@.len(),
                inner@ == padded(s@.take(i as int)),
            decreases m - i,
        {
            inner[i] = s[i];
            i += 1;
            proof {
                assert(inner@ =~= padded(s@.take(i as int)));
            }
        }
        proof {
            assert(s@.take(m as int) =~= capped(s@));
        }
        match utf8_text(inner.as_slice()) {
            Ok(_) => {
                proof {
                    lemma_logical_valid(inner@);
                }
                Ok(KeyString { inner })
            },
            Err(e) => Err(e),
        }
    }

    /// Appends `s` at the end of the logical content when the result fits in 64
    /// bytes; otherwise leaves the key unchanged. Everything after the appended
    /// text is zero.
    pub fn push(&mut self, s: &str)
        ensures
            s.spec_bytes().len() == 0 ==> final(self)@ == old(self)@,
            old(self).text().len() + s.spec_bytes().len() > CAPACITY ==> final(self)@ == old(self)@,
            s.spec_bytes().len() > 0 && old(self).text().len() + s.spec_bytes().len() <= CAPACITY
                ==> final(self)@ == padded(old(self).text() + s.spec_bytes()),
            old(self).text().len() + s.spec_bytes().len() <= CAPACITY ==> final(self).text()
                == logical(old(self).text() + s.spec_bytes()),
    {
        proof {
            use_type_invariant(&*self);
        }
        let n = self.len();
        let b = s.as_bytes();
        if b.len() == 0 || b.len() > 64 - n {
            proof {
                lemma_logical_zero_free(self@);
                if b@.len() == 0 {
                    assert(self.text() + b@ =~= self.text());
                    lemma_logical_padded(self.text());
                }
            }
            return;
        }
        let ghost t = self.text() + b@;
        let mut inner = [0u8; 64];
        let mut i: usize = 0;
        proof {
            assert(inner@ =~= padded(t.take(0)));
        }
        while i < n
            invariant
                i <= n,
                n + b@.len() <= CAPACITY,
                n == self.text().len(),
                self.text() == self@.take(n as int),
                t == self.text() + b@,
                inner@ == padded(t.take(i as int)),
            decreases n - i,
        {
            inner[i] = self.inner[i];
            i += 1;
            proof {
                assert(inner@ =~= padded(t.take(i as int)));
            }
        }
        let mut j: usize = 0;
        while j < b.len()
            invariant
                j <= b@.len(),
                n + b@.len() <= CAPACITY,
                n == self.text().len(),
                t == self.text() + b@,
                inner@ == padded(t.take(n + j)),
            decreases b@.len() - j,
        {
            inner[n + j] = b[j];
            j += 1;
            proof {
                assert(inner@ =~= padded(t.take(n + j)));
            }
        }
        proof {
            assert(t.take(n + j) =~= t);
            encode_utf8_valid_utf8(s@);
            valid_utf8_concat(self.text(), b@);
            lemma_padded_valid(t);
            lemma_logical_padded(t);
        }
        *self = KeyString { inner };
    }

    /// Number of bytes before the first zero byte.
    pub fn len(&self) -> (r: usize)
        ensures
            r as int == logical_len(self@),
            r as int == self.text().len(),
            r <= CAPACITY,
            self@.len() == CAPACITY,
    {
        let mut i: usize = 0;
        while i < 64 && self.inner[i] != 0
            invariant
                i <= 64,
                self@.len() == 64,
                forall|j: int| 0 <= j < i ==> self@[j] != 0,
            decreases 64 - i,
        {
            i += 1;
        }
        proof {
            lemma_first_zero_at(self@, 0, i as int);
        }
        i
    }

    /// The logical content as bytes.
    pub fn as_bytes(&self) -> (r: &[u8])
        ensures
            r@ == self.text(),
    {
        let n = self.len();
        let r = vstd::slice::slice_subrange(self.inner.as_slice(), 0, n);
        proof {
            assert(r@ =~= self.text());
        }
        r
    }

    /// The logical content as text.
    pub fn as_str(&self) -> (r: &str)
        ensures
            r.spec_bytes() == self.text(),
    {
        proof {
            use_type_invariant(self);
        }
        let b = self.as_bytes();
        match utf8_text(b) {
            Ok(s) => s,
            Err(_) => {
                proof {
                    assert(false);
                }
                ""
            },
        }
    }

    /// The logical content as characters.
    pub open spec fn chars(&self) -> Seq<char> {
        decode_utf8(self.text())
    }

    /// The logical content read as a decimal `i32`. The caller must know that it is one.
    pub fn to_i32(&self) -> (r: i32)
        requires
            decimal_i32(self.chars()) is Some,
        ensures
            r == decimal_i32(self.chars())->Some_0,
    {
        match self.to_i32_checked() {
            Ok(v) => v,
            Err(_) => {
                proof {
                    assert(false);
                }
                0
            },
        }
    }

    /// The logical content read as a decimal `i32`, or the parse error.
    pub fn to_i32_checked(&self) -> (r: Result<i32, std::num::ParseIntError>)
        ensures
            r is Ok <==> decimal_i32(self.chars()) is Some,
            r is Ok ==> r->Ok_0 == decimal_i32(self.chars())->Some_0,
    {
        let s = self.as_str();
        proof {
            encode_utf8_decode_utf8(s@);
        }
        parse_i32(s)
    }

    /// Three-way comparison of the logical contents, byte by byte.
    pub fn compare(&self, other: &KeyString) -> (r: std::cmp::Ordering)
        ensures
            r == lex_cmp(self.text(), other.text()),
    {
        let a = self.as_bytes();
        let b = other.as_bytes();
        let mut i: usize = 0;
        proof {
            assert(a@.skip(0) =~= a@);
            assert(b@.skip(0) =~= b@);
        }
        while i < a.len() && i < b.len()
            invariant
                i <= a@.len(),
                i <= b@.len(),
                a@ == self.text(),
                b@ == other.text(),
                lex_cmp(a@, b@) == lex_cmp(a@.skip(i as int), b@.skip(i as int)),
            decreases a@.len() - i,
        {
            let x = a[i];
            let y = b[i];
            proof {
                assert(a@.skip(i as int).len() > 0 && a@.skip(i as int)[0] == x);
                assert(b@.skip(i as int).len() > 0 && b@.skip(i as int)[0] == y);
            }
            if x < y {
                return std::cmp::Ordering::Less;
            }
            if x > y {
                return std::cmp::Ordering::Greater;
            }
            proof {
                assert(a@.skip(i as int).drop_first() =~= a@.skip(i + 1));
                assert(b@.skip(i as int).drop_first() =~= b@.skip(i + 1));
            }
            i += 1;
        }
        proof {
            assert(a@.skip(i as int).len() == a@.len() - i);
            assert(b@.skip(i as int).len() == b@.len() - i);
        }
        if i < a.len() {
            std::cmp::Ordering::Greater
        } else if i < b.len() {
            std::cmp::Ordering::Less
        } else {
            std::cmp::Ordering::Equal
        }
    }

    /// The whole 64-byte buffer, padding included.
    pub fn raw(&self) -> (r: &[u8])
        ensures
            r@ == self@,
            r@.len() == CAPACITY,
    {
        self.inner.as_slice()
    }
}

impl Default for KeyString {
    /// The empty key, all 64 bytes zero.
    fn default() -> (r: KeyString)
        ensures
            r@ == zeros(CAPACITY as nat),
    {
        KeyString::new()
    }
}

impl PartialEq for KeyString {
    /// Keys are equal when their logical contents are, whatever their padding holds.
    fn eq(&self, other: &KeyString) -> (r: bool) {
        proof {
            lemma_lex_cmp_equal(self.text(), other.text());
        }
        match self.compare(other) {
            std::cmp::Ordering::Equal => true,
            _ => false,
        }
    }
}

impl vstd::std_specs::cmp::PartialEqSpecImpl for KeyString {
    open spec fn obeys_eq_spec() -> bool {
        true
    }

    open spec fn eq_spec(&self, other: &KeyString) -> bool {
        self.text() == other.text()
    }
}

impl Eq for KeyString {
}

/// Relies on `<[T] as Hash>::hash`, which feeds the slice's length and items to
/// the hasher. Nothing about the hasher's state is claimed.
pub assume_specification<T: std::hash::Hash, H: std::hash::Hasher>[ <[T] as std::hash::Hash>::hash::<H> ](
    data: &[T],
    state: &mut H,
);

impl std::hash::Hash for KeyString {
    /// Hashes the logical content, as equality compares it.
    fn hash<H: std::hash::Hasher>(&self, state: &mut H) {
        std::hash::Hash::hash(self.as_bytes(), state)
    }
}

impl PartialOrd for KeyString {
    /// Keys are ordered by their logical contents, byte by byte.
    fn partial_cmp(&self, other: &KeyString) -> (r: Option<std::cmp::Ordering>) {
        Some(self.compare(other))
    }
}

impl vstd::std_specs::cmp::PartialOrdSpecImpl for KeyString {
    open spec fn obeys_partial_cmp_spec() -> bool {
        true
    }

    open spec fn partial_cmp_spec(&self, other: &KeyString) -> Option<std::cmp::Ordering> {
        Some(lex_cmp(self.text(), other.text()))
    }
}

impl<'a> From<&'a str> for KeyString {
    /// See [`KeyString::from_text`].
    fn from(s: &'a str) -> (r: KeyString)
        ensures
            r@ == padded(truncated(s.spec_bytes())),
    {
        let r = KeyString::from_text(s);
        proof {
            let k = choose|k: KeyString| k@ == padded(truncated(s.spec_bytes()));
            assert(k.inner =~= r.inner);
        }
        r
    }
}

impl<'a> vstd::std_specs::convert::FromSpecImpl<&'a str> for KeyString {
    open spec fn obeys_from_spec() -> bool {
        true
    }

    open spec fn from_spec(s: &'a str) -> KeyString {
        choose|k: KeyString| k@ == padded(truncated(s.spec_bytes()))
    }
}

impl<'a> TryFrom<&'a [u8]> for KeyString {
    type Error = std::str::Utf8Error;

    /// See [`KeyString::from_bytes`].
    fn try_from(s: &'a [u8]) -> (r: Result<KeyString, std::str::Utf8Error>)
        ensures
            r is Ok <==> valid_utf8(padded(capped(s@))),
            r is Ok ==> r->Ok_0@ == padded(capped(s@)),
    {
        KeyString::from_bytes(s)
    }
}

/// The error that `from_utf8` hands back cannot be named here, so the trait's
/// generic contract is not claimed; `try_from` states its result in its own `ensures`.
impl<'a> vstd::std_specs::convert::TryFromSpecImpl<&'a [u8]> for KeyString {
    open spec fn obeys_try_from_spec() -> bool {
        false
    }

    open spec fn try_from_spec(s: &'a [u8]) -> Result<KeyString, std::str::Utf8Error> {
        Ok(choose|k: KeyString| k@ == padded(capped(s@)))
    }
}

/// Text of at most 64 bytes with no zero byte is kept whole: the key built from
/// it by [`KeyString::from_text`] holds exactly that text.
pub proof fn law_short_text_kept(t: &str)
    requires
        t.spec_bytes().len() <= CAPACITY,
        zero_free(t.spec_bytes()),
    ensures
        logical(padded(truncated(t.spec_bytes()))) == t.spec_bytes(),
{
    let b = t.spec_bytes();
    encode_utf8_valid_utf8(t@);
    assert(b.take(b.len() as int) =~= b);
    lemma_logical_padded(b);
}

/// Text longer than 64 bytes with no zero byte among its first 64 is cut to a
/// prefix of 61 to 64 bytes that is valid UTF-8, and no longer prefix of at
/// most 64 bytes is valid UTF-8.
pub proof fn law_long_text_truncated(t: &str)
    requires
        t.spec_bytes().len() > CAPACITY,
        zero_free(t.spec_bytes().take(CAPACITY as int)),
    ensures
        ({
            let b = t.spec_bytes();
            let k = logical(padded(truncated(b)));
            &&& CAPACITY - 3 <= k.len() <= CAPACITY
            &&& k == b.take(k.len() as int)
            &&& valid_utf8(k)
            &&& forall|j: int| k.len() < j <= CAPACITY ==> !valid_utf8(#[trigger] b.take(j))
        }),
{
    let b = t.spec_bytes();
    lemma_valid_prefix_len(b, CAPACITY as int);
    let c = truncated(b);
    assert(zero_free(c)) by {
        assert forall|i: int| 0 <= i < c.len() implies c[i] != 0 by {
            assert(c[i] == b.take(CAPACITY as int)[i]);
        }
    }
    lemma_logical_padded(c);
    encode_utf8_valid_utf8(t@);
    lemma_boundary_within_three(b, CAPACITY as int);
    let j = choose|j: int| CAPACITY - 3 <= j <= CAPACITY && 0 <= j && #[trigger] is_char_boundary(b, j);
    valid_utf8_split(b, j);
    assert(b.take(j) =~= b.subrange(0, j));
}

/// A key built from raw bytes gives back, through [`KeyString::raw`], the
/// zero-padded 64-byte buffer of those bytes, and building again from that
/// buffer succeeds with the same buffer.
pub proof fn law_raw_round_trip(s: Seq<u8>)
    requires
        valid_utf8(padded(capped(s))),
    ensures
        padded(capped(s)).len() == CAPACITY,
        padded(capped(padded(capped(s)))) == padded(capped(s)),
        valid_utf8(padded(capped(padded(capped(s))))),
{
    let r = padded(capped(s));
    assert(capped(r) == r);
    assert(padded(r) =~= r);
}

/// The empty text has no bytes: pushing it leaves the buffer as it was, and so
/// the logical content and the length too.
pub proof fn law_push_empty(k: KeyString, s: &str)
    requires
        s@.len() == 0,
    ensures
        s.spec_bytes().len() == 0,
        logical(k.text() + s.spec_bytes()) == k.text(),
{
    assert(s@ =~= Seq::<char>::empty());
    assert(s.spec_bytes() =~= Seq::<u8>::empty());
    let t = k.text();
    lemma_logical_zero_free(k@);
    assert(t + s.spec_bytes() =~= t);
    lemma_logical_padded(t);
}

/// Pushing text that brings the length to exactly 64 bytes fills the buffer with
/// the old content followed by that text; with no zero byte in the text, all 64
/// bytes are logical content.
pub proof fn law_push_fills(k: KeyString, s: &str)
    requires
        k.text().len() + s.spec_bytes().len() == CAPACITY,
    ensures
        padded(k.text() + s.spec_bytes()) == k.text() + s.spec_bytes(),
        zero_free(s.spec_bytes()) ==> logical(padded(k.text() + s.spec_bytes())) == k.text()
            + s.spec_bytes(),
{
    let t = k.text() + s.spec_bytes();
    assert(padded(t) =~= t);
    if zero_free(s.spec_bytes()) {
        lemma_logical_zero_free(k@);
        assert(zero_free(t)) by {
            assert forall|i: int| 0 <= i < t.len() implies t[i] != 0 by {
                if i >= k.text().len() {
                    assert(t[i] == s.spec_bytes()[i - k.text().len()]);
                }
            }
        }
        lemma_logical_padded(t);
    }
}

} // verus!
