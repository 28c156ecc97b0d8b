//! `RawString`: an owned, growable string of bytes with unchecked contents.
use vstd::prelude::*;
use vstd::utf8::*;

use crate::index::ByteRange;
use crate::raw_str_mut::RawStrMut;
use crate::raw_str::{ascii_lower, ascii_upper, utf8_error_of, RawStr, Utf8Error};

verus! {

broadcast use {vstd::seq::group_seq_axioms, vstd::std_specs::vec::group_vec_axioms};

/// Relies on `String::into_bytes`: the UTF-8 encoding of the string, moved
/// out without copying.
#[verifier::external_body]
fn string_into_bytes(s: String) -> (r: Vec<u8>)
    ensures
        r@ == encode_utf8(s@),
{
    s.into_bytes()
}

/// Relies on `String::from_utf8`: it succeeds exactly on valid UTF-8, and
/// the string then holds the characters those bytes encode.
#[verifier::external_body]
fn utf8_string(v: Vec<u8>) -> (r: Option<String>)
    ensures
        r is Some <==> valid_utf8(v@),
        r matches Some(s) ==> encode_utf8(s@) == v@,
{
    match String::from_utf8(v) {
        Ok(s) => Some(s),
        Err(_) => None,
    }
}

/// Relies on `Vec::capacity`: the vector holds its elements within the room
/// it has allocated.
#[verifier::external_body]
fn vec_capacity(v: &Vec<u8>) -> (r: usize)
    ensures
        r >= v@.len(),
{
    v.capacity()
}

/// Relies on `Vec::reserve_exact`: only the allocation changes.
#[verifier::external_body]
fn vec_reserve_exact(v: &mut Vec<u8>, additional: usize)
    ensures
        final(v)@ == old(v)@,
{
    v.reserve_exact(additional)
}

/// Relies on `Vec::shrink_to_fit`: only the allocation changes.
#[verifier::external_body]
fn vec_shrink_to_fit(v: &mut Vec<u8>)
    ensures
        final(v)@ == old(v)@,
{
    v.shrink_to_fit()
}

/// Appends the bytes of `s` to `v`.
fn extend_bytes(v: &mut Vec<u8>, s: &[u8])
    ensures
        final(v)@ == old(v)@ + s@,
{
    let ghost start = v@;
    let mut i: usize = 0;
    while i < s.len()
        invariant
            i <= s@.len(),
            v@ == start + s@.subrange(0, i as int),
        decreases s@.len() - i,
    {
        v.push(s[i]);
        i = i + 1;
        assert(v@ =~= start + s@.subrange(0, i as int));
    }
    assert(s@.subrange(0, s@.len() as int) =~= s@);
}

/// The bytes of `s` whose entry in `keep` is true, in order.
pub open spec fn kept(s: Seq<u8>, keep: Seq<bool>) -> Seq<u8>
    decreases s.len(),
{
    if s.len() == 0 {
        seq![]
    } else if keep.last() {
        kept(s.drop_last(), keep.drop_last()).push(s.last())
    } else {
        kept(s.drop_last(), keep.drop_last())
    }
}

/// A `String` with unchecked contents.
///
/// It is basically a `Vec<u8>`, to be interpreted as string. Unlike
/// `String`, there are no guarantees about the contents being valid UTF-8.
/// Unlike `Vec<u8>`, it renders as a string, not an array of numbers.
#[derive(Clone, Debug, Hash)]
pub struct RawString {
    inner: Vec<u8>,
}

impl View for RawString {
    type V = Seq<u8>;

    closed spec fn view(&self) -> Seq<u8> {
        self.inner@
    }
}

/// Bytes that were to become a `String` but are not valid UTF-8; the bytes
/// are kept, so that nothing is lost.
#[derive(Debug)]
pub struct FromUtf8Error {
    bytes: Vec<u8>,
    error: Utf8Error,
}

impl View for FromUtf8Error {
    /// The bytes, and what `Utf8Error` says of them.
    type V = (Seq<u8>, (nat, Option<nat>));

    closed spec fn view(&self) -> (Seq<u8>, (nat, Option<nat>)) {
        (self.bytes@, self.error@)
    }
}

impl FromUtf8Error {
    /// The bytes that were not valid UTF-8.
    pub fn as_bytes(&self) -> (r: &[u8])
        ensures
            r@ == self@.0,
    {
        self.bytes.as_slice()
    }

    /// The bytes that were not valid UTF-8, given back.
    pub fn into_bytes(self) -> (r: Vec<u8>)
        ensures
            r@ == self@.0,
    {
        self.bytes
    }

    /// Where the bytes stop being valid UTF-8.
    pub fn utf8_error(&self) -> (r: Utf8Error)
        ensures
            r@ == self@.1,
    {
        self.error
    }
}

impl Default for RawString {
    fn default() -> (r: RawString)
        ensures
            r@ == Seq::<u8>::empty(),
    {
        RawString { inner: Vec::new() }
    }
}

impl RawString {
    /// An empty string.
    pub fn new() -> (r: RawString)
        ensures
            r@ == Seq::<u8>::empty(),
    {
        RawString { inner: Vec::new() }
    }

    /// An empty string with room for `capacity` bytes.
    pub fn with_capacity(capacity: usize) -> (r: RawString)
        ensures
            r@ == Seq::<u8>::empty(),
    {
        RawString { inner: Vec::with_capacity(capacity) }
    }

    /// Takes the bytes over, without copying them.
    pub fn from_bytes(bytes: Vec<u8>) -> (r: RawString)
        ensures
            r@ == bytes@,
    {
        RawString { inner: bytes }
    }

    /// Takes the bytes of a string over, without copying them.
    pub fn from_string(s: String) -> (r: RawString)
        ensures
            r@ == encode_utf8(s@),
    {
        RawString { inner: string_into_bytes(s) }
    }

    /// A copy of the bytes of a `RawStr`.
    pub fn from_raw_str(s: RawStr) -> (r: RawString)
        ensures
            r@ == s@,
    {
        RawString { inner: s.bytes() }
    }

    /// Gives the bytes back.
    pub fn into_bytes(self) -> (r: Vec<u8>)
        ensures
            r@ == self@,
    {
        self.inner
    }

    /// A view of the bytes.
    pub fn as_raw_str(&self) -> (r: RawStr<'_>)
        ensures
            r@ == self@,
    {
        RawStr::from_bytes(self.inner.as_slice())
    }

    /// A mutable view of the bytes.
    pub fn as_raw_str_mut(&mut self) -> (r: RawStrMut<'_>)
        ensures
            r.inner@ == old(self)@,
            final(self)@ == final(r.inner)@,
    {
        RawStr::from_bytes_mut(self.inner.as_mut_slice())
    }

    /// The number of bytes.
    pub fn len(&self) -> (r: usize)
        ensures
            r == self@.len(),
    {
        self.inner.len()
    }

    /// Whether there are no bytes.
    pub fn is_empty(&self) -> (r: bool)
        ensures
            r == (self@.len() == 0),
    {
        self.inner.len() == 0
    }

    /// How many bytes fit without a new allocation.
    pub fn capacity(&self) -> (r: usize)
        ensures
            r >= self@.len(),
    {
        vec_capacity(&self.inner)
    }

    /// Makes room for at least `additional` more bytes.
    pub fn reserve(&mut self, additional: usize)
        ensures
            final(self)@ == old(self)@,
    {
        self.inner.reserve(additional)
    }

    /// Makes room for `additional` more bytes, not more than needed.
    pub fn reserve_exact(&mut self, additional: usize)
        ensures
            final(self)@ == old(self)@,
    {
        vec_reserve_exact(&mut self.inner, additional)
    }

    /// Gives back the room that is not used.
    pub fn shrink_to_fit(&mut self)
        ensures
            final(self)@ == old(self)@,
    {
        vec_shrink_to_fit(&mut self.inner)
    }

    /// Removes every byte.
    pub fn clear(&mut self)
        ensures
            final(self)@ == Seq::<u8>::empty(),
    {
        self.inner.clear()
    }

    /// Keeps the first `new_len` bytes; does nothing if there are no more.
    pub fn truncate(&mut self, new_len: usize)
        ensures
            new_len <= old(self)@.len() ==> final(self)@ == old(self)@.subrange(0, new_len as int),
            new_len > old(self)@.len() ==> final(self)@ == old(self)@,
    {
        self.inner.truncate(new_len)
    }

    /// Removes and returns the last byte, if any.
    pub fn pop(&mut self) -> (r: Option<u8>)
        ensures
            old(self)@.len() == 0 ==> r is None && final(self)@ == old(self)@,
            old(self)@.len() > 0 ==> r == Some(old(self)@.last()) && final(self)@ == old(
                self,
            )@.drop_last(),
    {
        self.inner.pop()
    }

    /// Removes and returns the byte at `idx`.
    pub fn remove(&mut self, idx: usize) -> (r: u8)
        requires
            idx < old(self)@.len(),
        ensures
            r == old(self)@[idx as int],
            final(self)@ == old(self)@.remove(idx as int),
    {
        self.inner.remove(idx)
    }

    /// Keeps only the bytes for which `f` is true, in their order.
    pub fn retain<F: Fn(u8) -> bool>(&mut self, f: F)
        requires
            forall|b: u8| f.requires((b,)),
        ensures
            exists|keep: Seq<bool>|
                keep.len() == old(self)@.len() && (forall|i: int|
                    0 <= i < keep.len() ==> f.ensures((old(self)@[i],), #[trigger] keep[i]))
                    && final(self)@ == #[trigger] kept(old(self)@, keep),
    {
        let ghost start = self.inner@;
        let ghost mut keep: Seq<bool> = seq![];
        let mut out: Vec<u8> = Vec::new();
        let mut i: usize = 0;
        while i < self.inner.len()
            invariant
                self.inner@ == start,
                i <= start.len(),
                keep.len() == i,
                forall|j: int| 0 <= j < i ==> f.ensures((start[j],), #[trigger] keep[j]),
                forall|b: u8| f.requires((b,)),
                out@ == kept(start.subrange(0, i as int), keep),
            decreases start.len() - i,
        {
            let b = self.inner[i];
            let k = f(b);
            let ghost before = keep;
            proof {
                keep = keep.push(k);
                assert(start.subrange(0, i + 1).drop_last() =~= start.subrange(0, i as int));
                assert(keep.drop_last() =~= before);
                assert(start.subrange(0, i + 1).last() == b);
            }
            if k {
                out.push(b);
            }
            i = i + 1;
        }
        assert(start.subrange(0, start.len() as int) =~= start);
        self.inner = out;
        assert(start == old(self)@);
        assert(keep.len() == start.len() && (forall|i: int|
            0 <= i < keep.len() ==> f.ensures((start[i],), #[trigger] keep[i])) && self.inner@
            == kept(start, keep));
    }

    /// Inserts the byte `b` at `idx`.
    pub fn insert(&mut self, idx: usize, b: u8)
        requires
            idx <= old(self)@.len(),
        ensures
            final(self)@ == old(self)@.insert(idx as int, b),
    {
        self.inner.insert(idx, b)
    }

    /// Inserts the bytes of `s` at `idx`.
    pub fn insert_str(&mut self, idx: usize, s: RawStr)
        requires
            idx <= old(self)@.len(),
        ensures
            final(self)@ == old(self)@.subrange(0, idx as int) + s@ + old(self)@.subrange(
                idx as int,
                old(self)@.len() as int,
            ),
    {
        let mut tail = self.inner.split_off(idx);
        extend_bytes(&mut self.inner, s.as_bytes());
        self.inner.append(&mut tail);
    }

    /// Keeps the bytes before `at` and returns those from `at` on.
    pub fn split_off(&mut self, at: usize) -> (r: RawString)
        requires
            at <= old(self)@.len(),
        ensures
            final(self)@ == old(self)@.subrange(0, at as int),
            r@ == old(self)@.subrange(at as int, old(self)@.len() as int),
    {
        RawString { inner: self.inner.split_off(at) }
    }

    /// Removes the bytes of `range`, closing the gap, and returns them. The
    /// removal is complete when this returns.
    pub fn drain(&mut self, range: ByteRange) -> (r: Vec<u8>)
        requires
            range.within(old(self)@.len()),
        ensures
            ({
                let (a, b) = range.bounds(old(self)@.len());
                &&& r@ == old(self)@.subrange(a, b)
                &&& final(self)@ == old(self)@.subrange(0, a) + old(self)@.subrange(
                    b,
                    old(self)@.len() as int,
                )
            }),
    {
        let (a, b) = range.checked_bounds(self.inner.len()).unwrap();
        let mut tail = self.inner.split_off(b);
        let removed = self.inner.split_off(a);
        self.inner.append(&mut tail);
        removed
    }

    /// Replaces the bytes of `range` with those of `replace_with`, which may
    /// be of another length.
    pub fn replace_range(&mut self, range: ByteRange, replace_with: RawStr)
        requires
            range.within(old(self)@.len()),
        ensures
            ({
                let (a, b) = range.bounds(old(self)@.len());
                final(self)@ == old(self)@.subrange(0, a) + replace_with@ + old(self)@.subrange(
                    b,
                    old(self)@.len() as int,
                )
            }),
    {
        let (a, b) = range.checked_bounds(self.inner.len()).unwrap();
        let mut tail = self.inner.split_off(b);
        let _removed = self.inner.split_off(a);
        extend_bytes(&mut self.inner, replace_with.as_bytes());
        self.inner.append(&mut tail);
    }

    /// Appends the byte `b`.
    pub fn push(&mut self, b: u8)
        ensures
            final(self)@ == old(self)@.push(b),
    {
        self.inner.push(b)
    }

    /// Appends the bytes of `s`.
    pub fn push_str(&mut self, s: RawStr)
        ensures
            final(self)@ == old(self)@ + s@,
    {
        extend_bytes(&mut self.inner, s.as_bytes())
    }

    /// The bytes, to change them in place.
    pub fn as_mut_bytes(&mut self) -> (r: &mut Vec<u8>)
        ensures
            r@ == old(self)@,
            final(self)@ == final(r)@,
    {
        &mut self.inner
    }

    /// The bytes as a `String`, if they are valid UTF-8; otherwise the bytes
    /// are given back with where they stop being valid.
    pub fn to_string(self) -> (r: Result<String, FromUtf8Error>)
        ensures
            r is Ok <==> valid_utf8(self@),
            r matches Ok(s) ==> encode_utf8(s@) == self@,
            r matches Err(e) ==> e@ == (self@, utf8_error_of(self@)),
    {
        let checked = self.as_raw_str().to_str();
        match checked {
            Ok(_) => match utf8_string(self.inner) {
                Some(s) => Ok(s),
                None => Ok(String::new()),
            },
            Err(error) => Err(FromUtf8Error { bytes: self.inner, error }),
        }
    }

    /// Turns every ASCII small letter into its capital letter.
    pub fn make_ascii_uppercase(&mut self)
        ensures
            final(self)@.len() == old(self)@.len(),
            forall|i: int|
                0 <= i < old(self)@.len() ==> #[trigger] final(self)@[i] == ascii_upper(
                    old(self)@[i],
                ),
    {
        self.as_raw_str_mut().make_ascii_uppercase()
    }

    /// Turns every ASCII capital letter into its small letter.
    pub fn make_ascii_lowercase(&mut self)
        ensures
            final(self)@.len() == old(self)@.len(),
            forall|i: int|
                0 <= i < old(self)@.len() ==> #[trigger] final(self)@[i] == ascii_lower(
                    old(self)@[i],
                ),
    {
        self.as_raw_str_mut().make_ascii_lowercase()
    }
}

/// Splitting a buffer at `at` and joining the two pieces again, the kept
/// part first, gives back the bytes it held before.
pub proof fn lemma_split_off_rejoin(s: Seq<u8>, at: int)
    requires
        0 <= at <= s.len(),
    ensures
        s.subrange(0, at) + s.subrange(at, s.len() as int) == s,
{
    assert(s.subrange(0, at) + s.subrange(at, s.len() as int) =~= s);
}

/// After `drain(range)`, whether or not the removed bytes are used, the
/// buffer is shorter by exactly the length of the range, and holds the
/// bytes it held before with that range cut out.
pub proof fn lemma_drain_removes_range(s: Seq<u8>, range: ByteRange)
    requires
        range.within(s.len()),
    ensures
        ({
            let (a, b) = range.bounds(s.len());
            let rest = s.subrange(0, a) + s.subrange(b, s.len() as int);
            &&& rest.len() == s.len() - (b - a)
            &&& forall|i: int| 0 <= i < a ==> #[trigger] rest[i] == s[i]
            &&& forall|i: int| a <= i < rest.len() ==> #[trigger] rest[i] == s[i + (b - a)]
        }),
{
}

} // verus!
