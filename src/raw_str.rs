//! `RawStr`: a borrowed string of bytes with unchecked contents.
use vstd::prelude::*;
use vstd::slice::{slice_subrange, slice_to_vec};
use vstd::std_specs::iter::IteratorSpec;
use vstd::string::StringSliceAdditionalSpecFns;
use vstd::utf8::{encode_utf8_decode_utf8, encode_utf8_valid_utf8, valid_utf8};

use crate::index::RawStrIndex;
use crate::utf8::{broken_len, lemma_valid_utf8_iff, leading_run, scan_char, valid_prefix_len, valid_up_to};
use crate::utf8_chunks::{valid_str, Utf8ChunksIter};

verus! {

broadcast use {
    vstd::seq::group_seq_axioms,
    vstd::slice::group_slice_axioms,
    vstd::std_specs::slice::group_slice_axioms,
};

/// A `str` with unchecked contents.
///
/// It is basically a `[u8]`, to be interpreted as string: a view of bytes
/// that it borrows and never copies. Unlike `str`, there are no guarantees
/// about the contents being valid UTF-8. Unlike `[u8]`, it renders as a
/// string, not an array of numbers.
#[derive(Clone, Copy, Debug, Hash)]
pub struct RawStr<'a> {
    inner: &'a [u8],
}

impl<'a> View for RawStr<'a> {
    type V = Seq<u8>;

    closed spec fn view(&self) -> Seq<u8> {
        self.inner@
    }
}

impl<'a> Default for RawStr<'a> {
    fn default() -> (r: RawStr<'a>)
        ensures
            r@ == Seq::<u8>::empty(),
    {
        RawStr { inner: &[] }
    }
}

impl<'a> RawStr<'a> {
    /// Views the bytes as a `RawStr`, without copying or checking them.
    pub fn from_bytes(bytes: &'a [u8]) -> (r: RawStr<'a>)
        ensures
            r@ == bytes@,
    {
        RawStr { inner: bytes }
    }

    /// Views the bytes of a string as a `RawStr`.
    pub fn from_str(s: &'a str) -> (r: RawStr<'a>)
        ensures
            r@ == s.spec_bytes(),
    {
        RawStr { inner: s.as_bytes() }
    }

    /// The bytes, unchanged.
    pub fn as_bytes(&self) -> (r: &'a [u8])
        ensures
            r@ == self@,
    {
        self.inner
    }

    /// Iterate over chunks of valid UTF-8.
    ///
    /// The iterator iterates over the chunks of valid UTF-8 separated by any
    /// broken characters, which could be replaced by the unicode replacement
    /// character.
    pub fn utf8_chunks(&self) -> (r: Utf8ChunksIter<'a>)
        ensures
            r@ == self@,
    {
        Utf8ChunksIter::new(self.inner)
    }

    /// Two views with the same bytes are the same view.
    pub proof fn lemma_view_injective(a: RawStr<'a>, b: RawStr<'a>)
        requires
            a@ == b@,
        ensures
            a == b,
    {
        assert(a.inner =~= b.inner);
    }

    /// The bytes from `begin` up to `end`, as a view of the same bytes.
    pub fn slice(&self, begin: usize, end: usize) -> (r: RawStr<'a>)
        requires
            begin <= end <= self@.len(),
        ensures
            r@ == self@.subrange(begin as int, end as int),
    {
        RawStr { inner: slice_subrange(self.inner, begin, end) }
    }

    /// The byte or range that `index` selects, or `None` if it is out of
    /// bounds.
    pub fn get<I: RawStrIndex<'a>>(&self, index: I) -> (r: Option<I::Output>)
        ensures
            r is Some <==> index.in_bounds(self@.len()),
            r matches Some(o) ==> index.selects(self@, o),
    {
        index.get(*self)
    }

    /// The byte or range that `index` selects; it must be in bounds.
    pub fn index<I: RawStrIndex<'a>>(&self, index: I) -> (r: I::Output)
        requires
            index.in_bounds(self@.len()),
        ensures
            index.selects(self@, r),
    {
        index.index(*self)
    }

    /// The byte or range that `index` selects, without a bounds check at
    /// run time: callers prove that it is in bounds.
    pub fn get_unchecked<I: RawStrIndex<'a>>(&self, index: I) -> (r: I::Output)
        requires
            index.in_bounds(self@.len()),
        ensures
            index.selects(self@, r),
    {
        index.index(*self)
    }

    /// The bytes from `begin` up to `end`; callers prove the bounds.
    pub fn slice_unchecked(&self, begin: usize, end: usize) -> (r: RawStr<'a>)
        requires
            begin <= end <= self@.len(),
        ensures
            r@ == self@.subrange(begin as int, end as int),
    {
        self.slice(begin, end)
    }

    /// The number of bytes.
    pub fn len(&self) -> (r: usize)
        ensures
            r == self@.len(),
    {
        self.inner.len()
    }

    /// Whether there are no bytes.
    pub fn is_empty(&self) -> (r: bool)
        ensures
            r == (self@.len() == 0),
    {
        self.inner.len() == 0
    }

    /// The first byte, if any.
    pub fn first(&self) -> (r: Option<u8>)
        ensures
            r == (if self@.len() == 0 {
                None
            } else {
                Some(self@[0])
            }),
    {
        if self.inner.len() == 0 {
            None
        } else {
            Some(self.inner[0])
        }
    }

    /// The last byte, if any.
    pub fn last(&self) -> (r: Option<u8>)
        ensures
            r == (if self@.len() == 0 {
                None
            } else {
                Some(self@.last())
            }),
    {
        let n = self.inner.len();
        if n == 0 {
            None
        } else {
            Some(self.inner[n - 1])
        }
    }

    /// The first byte and the rest, if there is a first byte.
    pub fn split_first(&self) -> (r: Option<(u8, RawStr<'a>)>)
        ensures
            self@.len() == 0 ==> r is None,
            self@.len() > 0 ==> (r matches Some((b, rest)) && b == self@[0] && rest@
                == self@.drop_first()),
    {
        let n = self.inner.len();
        if n == 0 {
            None
        } else {
            let rest = slice_subrange(self.inner, 1, n);
            assert(rest@ =~= self@.drop_first());
            Some((self.inner[0], RawStr { inner: rest }))
        }
    }

    /// The last byte and the rest, if there is a last byte.
    pub fn split_last(&self) -> (r: Option<(u8, RawStr<'a>)>)
        ensures
            self@.len() == 0 ==> r is None,
            self@.len() > 0 ==> (r matches Some((b, rest)) && b == self@.last() && rest@
                == self@.drop_last()),
    {
        let n = self.inner.len();
        if n == 0 {
            None
        } else {
            let rest = slice_subrange(self.inner, 0, n - 1);
            assert(rest@ =~= self@.drop_last());
            Some((self.inner[n - 1], RawStr { inner: rest }))
        }
    }

    /// The bytes before `mid` and the bytes from `mid` on.
    pub fn split_at(&self, mid: usize) -> (r: (RawStr<'a>, RawStr<'a>))
        requires
            mid <= self@.len(),
        ensures
            r.0@ == self@.subrange(0, mid as int),
            r.1@ == self@.subrange(mid as int, self@.len() as int),
    {
        let (a, b) = self.inner.split_at(mid);
        (RawStr { inner: a }, RawStr { inner: b })
    }

    /// Whether the byte `x` occurs.
    pub fn contains_byte(&self, x: u8) -> (r: bool)
        ensures
            r == self@.contains(x),
    {
        let mut i: usize = 0;
        while i < self.inner.len()
            invariant
                i <= self@.len(),
                forall|j: int| 0 <= j < i ==> self@[j] != x,
            decreases self@.len() - i,
        {
            if self.inner[i] == x {
                assert(self@[i as int] == x);
                return true;
            }
            i = i + 1;
        }
        false
    }

    /// Whether the byte `x` occurs.
    pub fn contains(&self, x: &u8) -> (r: bool)
        ensures
            r == self@.contains(*x),
    {
        self.contains_byte(*x)
    }

    /// Whether the bytes begin with those of `x`.
    pub fn starts_with(&self, x: RawStr) -> (r: bool)
        ensures
            r == (x@.len() <= self@.len() && self@.subrange(0, x@.len() as int) == x@),
    {
        let n = x.inner.len();
        if n > self.inner.len() {
            return false;
        }
        let mut i: usize = 0;
        while i < n
            invariant
                n == x@.len() <= self@.len(),
                i <= n,
                forall|j: int| 0 <= j < i ==> self@[j] == x@[j],
            decreases n - i,
        {
            if self.inner[i] != x.inner[i] {
                assert(self@.subrange(0, n as int)[i as int] != x@[i as int]);
                return false;
            }
            i = i + 1;
        }
        assert(self@.subrange(0, n as int) =~= x@);
        true
    }

    /// Whether the bytes end with those of `x`.
    pub fn ends_with(&self, x: RawStr) -> (r: bool)
        ensures
            r == (x@.len() <= self@.len() && self@.subrange(
                self@.len() - x@.len(),
                self@.len() as int,
            ) == x@),
    {
        let n = x.inner.len();
        let m = self.inner.len();
        if n > m {
            return false;
        }
        let d = m - n;
        let mut i: usize = 0;
        while i < n
            invariant
                n == x@.len(),
                m == self@.len(),
                d == m - n,
                i <= n,
                forall|j: int| 0 <= j < i ==> self@[d + j] == x@[j],
            decreases n - i,
        {
            if self.inner[d + i] != x.inner[i] {
                assert(self@.subrange(d as int, m as int)[i as int] != x@[i as int]);
                return false;
            }
            i = i + 1;
        }
        assert(self@.subrange(d as int, m as int) =~= x@);
        true
    }

    /// An iterator over the bytes, in order.
    pub fn iter(&self) -> (r: std::slice::Iter<'a, u8>)
        ensures
            IteratorSpec::remaining(&r) == self@.as_ref(),
    {
        self.inner.iter()
    }

    /// A copy of the bytes, in order.
    pub fn bytes(&self) -> (r: Vec<u8>)
        ensures
            r@ == self@,
    {
        slice_to_vec(self.inner)
    }

    /// The bytes as a `str`, if they are valid UTF-8; otherwise where the
    /// first malformed sequence starts and how long it is.
    pub fn to_str(&self) -> (r: Result<&'a str, Utf8Error>)
        ensures
            r is Ok <==> valid_utf8(self@),
            r matches Ok(s) ==> s.spec_bytes() == self@,
            r matches Err(e) ==> e@ == utf8_error_of(self@),
    {
        let bytes = self.inner;
        let n = bytes.len();
        let v = valid_up_to(bytes);
        proof {
            lemma_valid_utf8_iff(bytes@);
        }
        if v == n {
            return Ok(valid_str(bytes));
        }
        let (_, run) = scan_char(bytes, v);
        let error_len = if run == n - v {
            None
        } else if run == 0 {
            Some(1)
        } else {
            Some(run)
        };
        Err(Utf8Error { valid_up_to: v, error_len })
    }

    /// Whether every byte is ASCII.
    pub fn is_ascii(&self) -> (r: bool)
        ensures
            r == (forall|i: int| 0 <= i < self@.len() ==> self@[i] < 128),
    {
        let mut i: usize = 0;
        while i < self.inner.len()
            invariant
                i <= self@.len(),
                forall|j: int| 0 <= j < i ==> self@[j] < 128,
            decreases self@.len() - i,
        {
            if self.inner[i] >= 128 {
                return false;
            }
            i = i + 1;
        }
        true
    }

    /// Whether the two are equal once ASCII letters are put in one case.
    pub fn eq_ignore_ascii_case(&self, other: RawStr) -> (r: bool)
        ensures
            r == (self@.len() == other@.len() && forall|i: int|
                0 <= i < self@.len() ==> ascii_lower(self@[i]) == ascii_lower(other@[i])),
    {
        let n = self.inner.len();
        if n != other.inner.len() {
            return false;
        }
        let mut i: usize = 0;
        while i < n
            invariant
                n == self@.len() == other@.len(),
                i <= n,
                forall|j: int| 0 <= j < i ==> ascii_lower(self@[j]) == ascii_lower(other@[j]),
            decreases n - i,
        {
            if to_ascii_lower(self.inner[i]) != to_ascii_lower(other.inner[i]) {
                return false;
            }
            i = i + 1;
        }
        true
    }
}

/// Round trip on valid text: the bytes of a string are valid UTF-8, so
/// `to_str` of `RawStr::from_str(s)` succeeds, and any string with those
/// bytes holds the same characters as `s`.
pub proof fn lemma_str_round_trip(s: &str)
    ensures
        valid_utf8(s.spec_bytes()),
        forall|t: &str| #[trigger] t.spec_bytes() == s.spec_bytes() ==> t@ == s@,
{
    encode_utf8_valid_utf8(s@);
    assert forall|t: &str| #[trigger] t.spec_bytes() == s.spec_bytes() implies t@ == s@ by {
        encode_utf8_decode_utf8(t@);
        encode_utf8_decode_utf8(s@);
    }
}

/// Bytes are kept as they are: `as_bytes` of `RawStr::from_bytes(b)` is `b`
/// itself, the same bytes in the same order.
pub proof fn lemma_bytes_preserved(b: &[u8], v: RawStr, out: &[u8])
    requires
        v@ == b@,
        out@ == v@,
    ensures
        out == b,
{
    assert(out =~= b);
}

/// `b` with an ASCII capital letter turned into its small letter.
pub open spec fn ascii_lower(b: u8) -> u8 {
    if 65 <= b <= 90 {
        (b + 32) as u8
    } else {
        b
    }
}

/// `b` with an ASCII small letter turned into its capital letter.
pub open spec fn ascii_upper(b: u8) -> u8 {
    if 97 <= b <= 122 {
        (b - 32) as u8
    } else {
        b
    }
}

/// `b` with an ASCII capital letter turned into its small letter.
pub fn to_ascii_lower(b: u8) -> (r: u8)
    ensures
        r == ascii_lower(b),
{
    if 65 <= b && b <= 90 {
        b + 32
    } else {
        b
    }
}

/// `b` with an ASCII small letter turned into its capital letter.
pub fn to_ascii_upper(b: u8) -> (r: u8)
    ensures
        r == ascii_upper(b),
{
    if 97 <= b && b <= 122 {
        b - 32
    } else {
        b
    }
}

/// Bytes that are not valid UTF-8: where the valid prefix ends, and the
/// length of the malformed sequence there, or `None` when the bytes end in
/// the middle of a character.
#[derive(Clone, Copy, Debug, PartialEq, Eq)]
pub struct Utf8Error {
    valid_up_to: usize,
    error_len: Option<usize>,
}

impl View for Utf8Error {
    /// Where the valid prefix ends, and the length of the malformed sequence.
    type V = (nat, Option<nat>);

    closed spec fn view(&self) -> (nat, Option<nat>) {
        (
            self.valid_up_to as nat,
            match self.error_len {
                Some(n) => Some(n as nat),
                None => None,
            },
        )
    }
}

impl Utf8Error {
    /// The length of the valid prefix.
    pub fn valid_up_to(&self) -> (r: usize)
        ensures
            r == self@.0,
    {
        self.valid_up_to
    }

    /// The length of the malformed sequence, or `None` when the input ended
    /// in the middle of a character.
    pub fn error_len(&self) -> (r: Option<usize>)
        ensures
            r is Some <==> self@.1 is Some,
            r matches Some(n) ==> self@.1 == Some(n as nat),
    {
        self.error_len
    }
}

/// What is reported for bytes `s` that are not valid UTF-8: the length of
/// their valid prefix, and the length of the malformed sequence after it, or
/// `None` when they end in the middle of a character.
pub open spec fn utf8_error_of(s: Seq<u8>) -> (nat, Option<nat>) {
    let v = valid_prefix_len(s);
    let rest = s.subrange(v as int, s.len() as int);
    (
        v,
        if leading_run(rest) == rest.len() {
            None
        } else {
            Some(broken_len(rest))
        },
    )
}

} // verus!
