//! Splitting bytes into chunks of valid UTF-8, each followed by a malformed run.
use vstd::prelude::*;
use vstd::slice::slice_subrange;
use vstd::string::StringSliceAdditionalSpecFns;
use vstd::utf8::*;

use crate::utf8::{broken_len, lemma_valid_utf8_iff, leading_run, scan_char, valid_prefix_len, valid_up_to};

verus! {

broadcast use vstd::seq::group_seq_axioms;

/// Relies on `std::str::from_utf8`: it succeeds exactly on valid UTF-8 and
/// then views the same bytes as a string slice.
#[verifier::external_body]
fn utf8_str<'a>(v: &'a [u8]) -> (r: Option<&'a str>)
    ensures
        r is Some <==> valid_utf8(v@),
        r matches Some(s) ==> s.spec_bytes() == v@,
{
    match std::str::from_utf8(v) {
        Ok(s) => Some(s),
        Err(_) => None,
    }
}

/// Views bytes already known to be valid UTF-8 as a string slice.
pub fn valid_str<'a>(v: &'a [u8]) -> (r: &'a str)
    requires
        valid_utf8(v@),
    ensures
        r.spec_bytes() == v@,
{
    match utf8_str(v) {
        Some(s) => s,
        None => "",
    }
}

/// The chunks of `s`, as pairs of valid bytes and the malformed run that
/// follows them. The malformed run is empty only in a last chunk that ends
/// cleanly.
pub open spec fn utf8_chunks_of(s: Seq<u8>) -> Seq<(Seq<u8>, Seq<u8>)>
    decreases s.len(),
{
    if s.len() == 0 {
        seq![]
    } else {
        let v = valid_prefix_len(s);
        if v >= s.len() {
            seq![(s, Seq::<u8>::empty())]
        } else {
            let e = v + broken_len(s.subrange(v as int, s.len() as int));
            proof {
                lemma_valid_utf8_iff(s);
            }
            seq![(s.subrange(0, v as int), s.subrange(v as int, e as int))] + utf8_chunks_of(
                s.subrange(e as int, s.len() as int),
            )
        }
    }
}

/// The bytes of a list of chunks, valid part then malformed run, in order.
pub open spec fn chunks_bytes(cs: Seq<(Seq<u8>, Seq<u8>)>) -> Seq<u8>
    decreases cs.len(),
{
    if cs.len() == 0 {
        seq![]
    } else {
        cs[0].0 + cs[0].1 + chunks_bytes(cs.drop_first())
    }
}

/// A chunk of valid UTF-8, possibly followed by a broken character encoding.
pub struct Utf8Chunk<'a> {
    /// A valid UTF-8 piece, at the start, end, or between broken chars.
    ///
    /// Empty between adjacent broken chars.
    pub valid: &'a str,
    /// A broken char.
    ///
    /// Can only be empty in the last chunk.
    ///
    /// Should be replaced by a single unicode replacement character, if not empty.
    pub broken: &'a [u8],
}

impl<'a> View for Utf8Chunk<'a> {
    type V = (Seq<u8>, Seq<u8>);

    open spec fn view(&self) -> (Seq<u8>, Seq<u8>) {
        (self.valid.spec_bytes(), self.broken@)
    }
}

/// An iterator over chunks of valid UTF-8 in a `RawStr`.
pub struct Utf8ChunksIter<'a> {
    pub(crate) bytes: &'a [u8],
}

impl<'a> View for Utf8ChunksIter<'a> {
    type V = Seq<u8>;

    /// The bytes not yet handed out.
    closed spec fn view(&self) -> Seq<u8> {
        self.bytes@
    }
}

impl<'a> Utf8ChunksIter<'a> {
    /// An iterator over the chunks of `bytes`.
    pub fn new(bytes: &'a [u8]) -> (r: Utf8ChunksIter<'a>)
        ensures
            r@ == bytes@,
    {
        Utf8ChunksIter { bytes }
    }

    /// Bounds on the number of chunks still to come: none once every byte
    /// has been handed out, else at least one.
    pub fn size_hint(&self) -> (r: (usize, Option<usize>))
        ensures
            self@.len() == 0 ==> r == (0usize, Some(0usize)),
            self@.len() > 0 ==> r == (1usize, None::<usize>),
            r.0 <= self.remaining().len(),
            r.1 matches Some(n) ==> self.remaining().len() <= n,
    {
        proof {
            lemma_chunks_rebuild(self@);
        }
        if self.bytes.len() == 0 {
            (0, Some(0))
        } else {
            (1, None)
        }
    }

    /// The chunks still to come.
    pub open spec fn remaining(&self) -> Seq<(Seq<u8>, Seq<u8>)> {
        utf8_chunks_of(self@)
    }

    /// The next chunk, or `None` once every byte has been handed out.
    pub fn next(&mut self) -> (r: Option<Utf8Chunk<'a>>)
        ensures
            old(self)@.len() == 0 ==> r is None && final(self)@ == old(self)@,
            old(self)@.len() > 0 ==> r is Some && final(self)@.len() < old(self)@.len(),
            r matches Some(c) ==> old(self).remaining() == seq![c@] + final(self).remaining(),
    {
        let bytes = self.bytes;
        let n = bytes.len();
        if n == 0 {
            return None;
        }
        let v = valid_up_to(bytes);
        proof {
            lemma_valid_utf8_iff(bytes@);
        }
        if v == n {
            let valid = valid_str(bytes);
            self.bytes = slice_subrange(bytes, n, n);
            let broken = slice_subrange(bytes, n, n);
            assert(broken@ =~= Seq::<u8>::empty());
            assert(self.bytes@ =~= Seq::<u8>::empty());
            assert(utf8_chunks_of(self.bytes@) =~= seq![]);
            assert(utf8_chunks_of(bytes@) =~= seq![(bytes@, Seq::<u8>::empty())]);
            let r = Utf8Chunk { valid, broken };
            assert(seq![r@] + utf8_chunks_of(self.bytes@) =~= seq![r@]);
            return Some(r);
        }
        let (valid_bytes, rest) = bytes.split_at(v);
        let (_, run) = scan_char(rest, 0);
        assert(rest@.subrange(0, rest@.len() as int) =~= rest@);
        assert(leading_run(rest@) <= rest@.len());
        let e: usize = if run == 0 {
            1
        } else {
            run
        };
        let (broken, tail) = rest.split_at(e);
        self.bytes = tail;
        assert(tail@ =~= bytes@.subrange(v + e, n as int));
        assert(broken@ =~= bytes@.subrange(v as int, v + e));
        Some(Utf8Chunk { valid: valid_str(valid_bytes), broken })
    }
}

/// Handing out every chunk and joining each one's valid bytes and malformed
/// run, in order, gives back the bytes exactly.
pub proof fn lemma_chunks_rebuild(s: Seq<u8>)
    ensures
        chunks_bytes(utf8_chunks_of(s)) == s,
        utf8_chunks_of(s).len() == 0 <==> s.len() == 0,
    decreases s.len(),
{
    if s.len() > 0 {
        lemma_valid_utf8_iff(s);
        let v = valid_prefix_len(s);
        let cs = utf8_chunks_of(s);
        if v >= s.len() {
            assert(cs.drop_first() =~= seq![]);
            assert(chunks_bytes(cs.drop_first()) == Seq::<u8>::empty());
            assert(s + Seq::<u8>::empty() + Seq::<u8>::empty() =~= s);
        } else {
            let e = v + broken_len(s.subrange(v as int, s.len() as int));
            let rest = s.subrange(e as int, s.len() as int);
            lemma_chunks_rebuild(rest);
            assert(cs.drop_first() =~= utf8_chunks_of(rest));
            assert(s.subrange(0, v as int) + s.subrange(v as int, e as int) + rest =~= s);
        }
    }
}

/// Bytes that end in the middle of a character: the last chunk's malformed
/// run is exactly the trailing bytes that cannot be decoded.
pub proof fn lemma_chunks_truncated_end(s: Seq<u8>)
    requires
        valid_prefix_len(s) < s.len(),
        leading_run(s.subrange(valid_prefix_len(s) as int, s.len() as int)) == s.len()
            - valid_prefix_len(s),
    ensures
        ({
            let v = valid_prefix_len(s) as int;
            utf8_chunks_of(s) == seq![(s.subrange(0, v), s.subrange(v, s.len() as int))]
        }),
{
    let v = valid_prefix_len(s) as int;
    assert(utf8_chunks_of(s.subrange(s.len() as int, s.len() as int)) =~= seq![]);
    assert(seq![(s.subrange(0, v), s.subrange(v, s.len() as int))] + seq![] =~= seq![
        (s.subrange(0, v), s.subrange(v, s.len() as int)),
    ]);
}

/// Every chunk's valid part is valid UTF-8, and only a last chunk may have an
/// empty malformed run.
pub proof fn lemma_chunks_shape(s: Seq<u8>)
    ensures
        forall|i: int|
            0 <= i < utf8_chunks_of(s).len() ==> valid_utf8(#[trigger] utf8_chunks_of(s)[i].0),
        forall|i: int|
            0 <= i < utf8_chunks_of(s).len() - 1 ==> #[trigger] utf8_chunks_of(s)[i].1.len() > 0,
    decreases s.len(),
{
    if s.len() > 0 {
        lemma_valid_utf8_iff(s);
        let v = valid_prefix_len(s);
        let cs = utf8_chunks_of(s);
        if v >= s.len() {
            assert(s.subrange(0, v as int) =~= s);
        } else {
            let e = v + broken_len(s.subrange(v as int, s.len() as int));
            let rest = s.subrange(e as int, s.len() as int);
            lemma_chunks_shape(rest);
            assert forall|i: int| 0 <= i < cs.len() implies valid_utf8(#[trigger] cs[i].0) by {
                if i > 0 {
                    assert(cs[i] == utf8_chunks_of(rest)[i - 1]);
                }
            }
            assert forall|i: int| 0 <= i < cs.len() - 1 implies #[trigger] cs[i].1.len() > 0 by {
                if i > 0 {
                    assert(cs[i] == utf8_chunks_of(rest)[i - 1]);
                }
            }
        }
    }
}

} // verus!
