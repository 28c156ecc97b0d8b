//! `RawStrMut`: a mutable view of bytes with unchecked contents, the
//! counterpart of `&mut RawStr`.
//!
//! The view is consumed by each operation, which hands out narrower mutable
//! views or references; what is written through them ends up in the bytes
//! the view was made from. Contracts speak of `old(v.inner)` (the bytes when
//! the call is made) and `final(v.inner)` (the bytes once every borrow that
//! came out of the call has ended).
use vstd::prelude::*;

use crate::index::ByteRange;
use crate::raw_str::{ascii_lower, ascii_upper, to_ascii_lower, to_ascii_upper, RawStr};

verus! {

broadcast use {vstd::seq::group_seq_axioms, vstd::slice::group_slice_axioms};

/// A mutable view of bytes, to be interpreted as a string.
pub struct RawStrMut<'a> {
    /// The bytes seen through the view.
    pub inner: &'a mut [u8],
}

impl<'a> RawStr<'a> {
    /// Views the bytes as a mutable `RawStr`, without copying or checking
    /// them.
    pub fn from_bytes_mut(bytes: &'a mut [u8]) -> (r: RawStrMut<'a>)
        ensures
            r.inner@ == old(bytes)@,
            final(r.inner)@ == final(bytes)@,
    {
        RawStrMut { inner: bytes }
    }

    /// Views the bytes as a mutable `RawStr`, without copying or checking
    /// them.
    pub fn from_mut_bytes(bytes: &'a mut [u8]) -> (r: RawStrMut<'a>)
        ensures
            r.inner@ == old(bytes)@,
            final(r.inner)@ == final(bytes)@,
    {
        RawStrMut { inner: bytes }
    }
}

impl<'a> RawStrMut<'a> {
    /// The bytes, to change them in place.
    pub fn as_bytes_mut(self) -> (r: &'a mut [u8])
        ensures
            r@ == old(self.inner)@,
            final(self.inner)@ == final(r)@,
    {
        self.inner
    }

    /// The bytes, to change them in place.
    pub fn as_mut_bytes(self) -> (r: &'a mut [u8])
        ensures
            r@ == old(self.inner)@,
            final(self.inner)@ == final(r)@,
    {
        self.inner
    }

    /// The first byte, to change it in place, if there is one.
    pub fn first_mut(self) -> (r: Option<&'a mut u8>)
        ensures
            old(self.inner)@.len() == 0 ==> r is None && final(self.inner)@ == old(self.inner)@,
            old(self.inner)@.len() > 0 ==> r is Some && *r.unwrap() == old(self.inner)@[0]
                && final(self.inner)@ == old(self.inner)@.update(0, *final(r.unwrap())),
    {
        self.inner.first_mut()
    }

    /// The last byte, to change it in place, if there is one.
    pub fn last_mut(self) -> (r: Option<&'a mut u8>)
        ensures
            old(self.inner)@.len() == 0 ==> r is None && final(self.inner)@ == old(self.inner)@,
            old(self.inner)@.len() > 0 ==> r is Some && *r.unwrap() == old(self.inner)@.last()
                && final(self.inner)@ == old(self.inner)@.update(
                old(self.inner)@.len() - 1,
                *final(r.unwrap()),
            ),
    {
        self.inner.last_mut()
    }

    /// The bytes before `mid` and those from `mid` on, as two mutable views.
    pub fn split_at_mut(self, mid: usize) -> (r: (RawStrMut<'a>, RawStrMut<'a>))
        requires
            mid <= old(self.inner)@.len(),
        ensures
            r.0.inner@ == old(self.inner)@.subrange(0, mid as int),
            r.1.inner@ == old(self.inner)@.subrange(mid as int, old(self.inner)@.len() as int),
            final(self.inner)@ == final(r.0.inner)@ + final(r.1.inner)@,
    {
        let (a, b) = self.inner.split_at_mut(mid);
        (RawStrMut { inner: a }, RawStrMut { inner: b })
    }

    /// The first byte and the rest, to change them in place, if there is a
    /// first byte.
    pub fn split_first_mut(self) -> (r: Option<(&'a mut u8, RawStrMut<'a>)>)
        ensures
            old(self.inner)@.len() == 0 ==> r is None && final(self.inner)@ == old(self.inner)@,
            old(self.inner)@.len() > 0 ==> r is Some && *r.unwrap().0 == old(self.inner)@[0]
                && r.unwrap().1.inner@ == old(self.inner)@.drop_first() && final(self.inner)@
                == seq![*final(r.unwrap().0)] + final(r.unwrap().1.inner)@,
    {
        let n = self.inner.len();
        if n == 0 {
            return None;
        }
        let (a, b) = self.inner.split_at_mut(1);
        match a.first_mut() {
            Some(x) => Some((x, RawStrMut { inner: b })),
            None => None,
        }
    }

    /// The last byte and the rest, to change them in place, if there is a
    /// last byte.
    pub fn split_last_mut(self) -> (r: Option<(&'a mut u8, RawStrMut<'a>)>)
        ensures
            old(self.inner)@.len() == 0 ==> r is None && final(self.inner)@ == old(self.inner)@,
            old(self.inner)@.len() > 0 ==> r is Some && *r.unwrap().0 == old(self.inner)@.last()
                && r.unwrap().1.inner@ == old(self.inner)@.drop_last() && final(self.inner)@
                == final(r.unwrap().1.inner)@ + seq![*final(r.unwrap().0)],
    {
        let n = self.inner.len();
        if n == 0 {
            return None;
        }
        let (a, b) = self.inner.split_at_mut(n - 1);
        match b.first_mut() {
            Some(x) => Some((x, RawStrMut { inner: a })),
            None => None,
        }
    }

    /// The byte at `index`, to change it in place, or `None` if out of
    /// bounds.
    pub fn get_mut(self, index: usize) -> (r: Option<&'a mut u8>)
        ensures
            index >= old(self.inner)@.len() ==> r is None && final(self.inner)@ == old(
                self.inner,
            )@,
            index < old(self.inner)@.len() ==> r is Some && *r.unwrap() == old(self.inner)@[index as int]
                && final(self.inner)@ == old(self.inner)@.update(index as int, *final(r.unwrap())),
    {
        let n = self.inner.len();
        if index >= n {
            return None;
        }
        let (_, b) = self.inner.split_at_mut(index);
        b.first_mut()
    }

    /// The bytes from `begin` up to `end`, as a mutable view; callers prove
    /// the bounds.
    pub fn slice_mut_unchecked(self, begin: usize, end: usize) -> (r: RawStrMut<'a>)
        requires
            begin <= end <= old(self.inner)@.len(),
        ensures
            r.inner@ == old(self.inner)@.subrange(begin as int, end as int),
            final(self.inner)@ == old(self.inner)@.subrange(0, begin as int) + final(r.inner)@
                + old(self.inner)@.subrange(end as int, old(self.inner)@.len() as int),
    {
        let (_, rest) = self.inner.split_at_mut(begin);
        let (mid, _) = rest.split_at_mut(end - begin);
        RawStrMut { inner: mid }
    }

    /// The bytes of `range`, as a mutable view; the range must be in bounds.
    pub fn index_mut(self, range: ByteRange) -> (r: RawStrMut<'a>)
        requires
            range.within(old(self.inner)@.len()),
        ensures
            ({
                let (a, b) = range.bounds(old(self.inner)@.len());
                &&& r.inner@ == old(self.inner)@.subrange(a, b)
                &&& final(self.inner)@ == old(self.inner)@.subrange(0, a) + final(r.inner)@
                    + old(self.inner)@.subrange(b, old(self.inner)@.len() as int)
            }),
    {
        let n = self.inner.len();
        let (a, b) = range.checked_bounds(n).unwrap();
        self.slice_mut_unchecked(a, b)
    }

    /// Turns every ASCII small letter into its capital letter.
    pub fn make_ascii_uppercase(self)
        ensures
            final(self.inner)@.len() == old(self.inner)@.len(),
            forall|i: int|
                0 <= i < old(self.inner)@.len() ==> #[trigger] final(self.inner)@[i] == ascii_upper(
                    old(self.inner)@[i],
                ),
    {
        let bytes = self.inner;
        let ghost start = bytes@;
        let mut i: usize = 0;
        while i < bytes.len()
            invariant
                bytes@.len() == start.len(),
                i <= start.len(),
                forall|j: int| 0 <= j < i ==> #[trigger] bytes@[j] == ascii_upper(start[j]),
                forall|j: int| i <= j < start.len() ==> #[trigger] bytes@[j] == start[j],
            decreases start.len() - i,
        {
            let b = to_ascii_upper(bytes[i]);
            bytes[i] = b;
            i = i + 1;
        }
    }

    /// Turns every ASCII capital letter into its small letter.
    pub fn make_ascii_lowercase(self)
        ensures
            final(self.inner)@.len() == old(self.inner)@.len(),
            forall|i: int|
                0 <= i < old(self.inner)@.len() ==> #[trigger] final(self.inner)@[i] == ascii_lower(
                    old(self.inner)@[i],
                ),
    {
        let bytes = self.inner;
        let ghost start = bytes@;
        let mut i: usize = 0;
        while i < bytes.len()
            invariant
                bytes@.len() == start.len(),
                i <= start.len(),
                forall|j: int| 0 <= j < i ==> #[trigger] bytes@[j] == ascii_lower(start[j]),
                forall|j: int| i <= j < start.len() ==> #[trigger] bytes@[j] == start[j],
            decreases start.len() - i,
        {
            let b = to_ascii_lower(bytes[i]);
            bytes[i] = b;
            i = i + 1;
        }
    }
}

} // verus!
