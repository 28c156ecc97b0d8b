//! Indexing a `RawStr` by a position (giving a byte) or by a range (giving a
//! narrower `RawStr` over the same bytes).
use core::ops::Range;
use vstd::prelude::*;

use crate::raw_str::RawStr;

verus! {

broadcast use vstd::seq::group_seq_axioms;

/// The range shapes of Rust's range syntax, over byte positions.
#[derive(Clone, Copy, Debug, PartialEq, Eq, Structural)]
pub enum ByteRange {
    /// `start..end`
    Range(usize, usize),
    /// `start..`
    RangeFrom(usize),
    /// `..end`
    RangeTo(usize),
    /// `..`
    RangeFull,
    /// `start..=end`
    RangeInclusive(usize, usize),
    /// `..=end`
    RangeToInclusive(usize),
}

impl ByteRange {
    /// The half-open bounds `[start, end)` that the range covers in a string
    /// of `len` bytes.
    pub open spec fn bounds(self, len: nat) -> (int, int) {
        match self {
            ByteRange::Range(a, b) => (a as int, b as int),
            ByteRange::RangeFrom(a) => (a as int, len as int),
            ByteRange::RangeTo(b) => (0, b as int),
            ByteRange::RangeFull => (0, len as int),
            ByteRange::RangeInclusive(a, b) => (a as int, b + 1),
            ByteRange::RangeToInclusive(b) => (0, b + 1),
        }
    }

    /// Whether the range lies within a string of `len` bytes.
    pub open spec fn within(self, len: nat) -> bool {
        let (a, b) = self.bounds(len);
        0 <= a <= b <= len
    }

    /// The half-open bounds, if the range lies within `len` bytes.
    pub fn checked_bounds(self, len: usize) -> (r: Option<(usize, usize)>)
        ensures
            r is Some <==> self.within(len as nat),
            r matches Some((a, b)) ==> (a as int, b as int) == self.bounds(len as nat),
    {
        let (a, b): (usize, usize) = match self {
            ByteRange::Range(a, b) => (a, b),
            ByteRange::RangeFrom(a) => (a, len),
            ByteRange::RangeTo(b) => (0, b),
            ByteRange::RangeFull => (0, len),
            ByteRange::RangeInclusive(a, b) => {
                if b >= len {
                    return None;
                }
                (a, b + 1)
            },
            ByteRange::RangeToInclusive(b) => {
                if b >= len {
                    return None;
                }
                (0, b + 1)
            },
        };
        if a <= b && b <= len {
            Some((a, b))
        } else {
            None
        }
    }
}

/// Something that selects from a `RawStr`: a single byte (for a position) or
/// a narrower `RawStr` over the same bytes (for a range).
pub trait RawStrIndex<'a>: Sized {
    /// `RawStr` (for ranges) or `u8` (for single positions).
    type Output;

    /// Whether the index lies within a string of `len` bytes.
    spec fn in_bounds(&self, len: nat) -> bool;

    /// Whether `out` is what the index selects from the bytes `s`.
    spec fn selects(&self, s: Seq<u8>, out: Self::Output) -> bool;

    /// At most one value is selected.
    proof fn lemma_selects_unique(&self, s: Seq<u8>, a: Self::Output, b: Self::Output)
        requires
            self.selects(s, a),
            self.selects(s, b),
        ensures
            a == b,
    ;

    /// The byte or range selected from `s`, or `None` if out of bounds.
    fn get(self, s: RawStr<'a>) -> (r: Option<Self::Output>)
        ensures
            r is Some <==> self.in_bounds(s@.len()),
            r matches Some(o) ==> self.selects(s@, o),
    ;

    /// The byte or range selected from `s`, which must be in bounds.
    fn index(self, s: RawStr<'a>) -> (r: Self::Output)
        requires
            self.in_bounds(s@.len()),
        ensures
            self.selects(s@, r),
    ;
}

impl<'a> RawStrIndex<'a> for usize {
    type Output = u8;

    open spec fn in_bounds(&self, len: nat) -> bool {
        *self < len
    }

    open spec fn selects(&self, s: Seq<u8>, out: u8) -> bool {
        out == s[*self as int]
    }

    proof fn lemma_selects_unique(&self, s: Seq<u8>, a: u8, b: u8) {
    }

    fn get(self, s: RawStr<'a>) -> (r: Option<u8>) {
        let bytes = s.as_bytes();
        if self < bytes.len() {
            Some(bytes[self])
        } else {
            None
        }
    }

    fn index(self, s: RawStr<'a>) -> (r: u8) {
        s.as_bytes()[self]
    }
}

impl<'a> RawStrIndex<'a> for ByteRange {
    type Output = RawStr<'a>;

    open spec fn in_bounds(&self, len: nat) -> bool {
        self.within(len)
    }

    open spec fn selects(&self, s: Seq<u8>, out: RawStr<'a>) -> bool {
        let (a, b) = self.bounds(s.len());
        out@ == s.subrange(a, b)
    }

    proof fn lemma_selects_unique(&self, s: Seq<u8>, a: RawStr<'a>, b: RawStr<'a>) {
        RawStr::lemma_view_injective(a, b);
    }

    fn get(self, s: RawStr<'a>) -> (r: Option<RawStr<'a>>) {
        match self.checked_bounds(s.len()) {
            Some((a, b)) => Some(s.slice(a, b)),
            None => None,
        }
    }

    fn index(self, s: RawStr<'a>) -> (r: RawStr<'a>) {
        match self.checked_bounds(s.len()) {
            Some((a, b)) => s.slice(a, b),
            None => s,
        }
    }
}

impl<'a> RawStrIndex<'a> for Range<usize> {
    type Output = RawStr<'a>;

    open spec fn in_bounds(&self, len: nat) -> bool {
        self.start <= self.end <= len
    }

    open spec fn selects(&self, s: Seq<u8>, out: RawStr<'a>) -> bool {
        out@ == s.subrange(self.start as int, self.end as int)
    }

    proof fn lemma_selects_unique(&self, s: Seq<u8>, a: RawStr<'a>, b: RawStr<'a>) {
        RawStr::lemma_view_injective(a, b);
    }

    fn get(self, s: RawStr<'a>) -> (r: Option<RawStr<'a>>) {
        if self.start <= self.end && self.end <= s.len() {
            Some(s.slice(self.start, self.end))
        } else {
            None
        }
    }

    fn index(self, s: RawStr<'a>) -> (r: RawStr<'a>) {
        s.slice(self.start, self.end)
    }
}

/// Indexing and its checked form agree: within bounds, `index(i)` is what
/// `get(i)` wraps in `Some`, since an index selects at most one value; out
/// of bounds `get(i)` is `None`, and `index(i)` may not be called.
pub proof fn lemma_index_agrees_with_get<'a, I: RawStrIndex<'a>>(
    i: I,
    s: RawStr<'a>,
    got: Option<I::Output>,
    indexed: I::Output,
)
    requires
        got is Some <==> i.in_bounds(s@.len()),
        got matches Some(o) ==> i.selects(s@, o),
        i.in_bounds(s@.len()) ==> i.selects(s@, indexed),
    ensures
        i.in_bounds(s@.len()) ==> got == Some(indexed),
        !i.in_bounds(s@.len()) ==> got is None,
{
    if i.in_bounds(s@.len()) {
        i.lemma_selects_unique(s@, got->Some_0, indexed);
    }
}

} // verus!
