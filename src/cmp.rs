//! Equality and ordering of byte strings: byte by byte, by unsigned value.
use core::cmp::Ordering;
use vstd::prelude::*;
use vstd::std_specs::cmp::{PartialEqSpec, PartialOrdSpec};
use vstd::string::StringSliceAdditionalSpecFns;

use crate::raw_str::RawStr;
use crate::raw_string::RawString;

verus! {

broadcast use vstd::seq::group_seq_axioms;

/// The lexicographic comparison of `a` with `b`, by unsigned byte value; a
/// proper prefix comes first.
pub open spec fn lex_cmp(a: Seq<u8>, b: Seq<u8>) -> Ordering
    decreases a.len(),
{
    if a.len() == 0 {
        if b.len() == 0 {
            Ordering::Equal
        } else {
            Ordering::Less
        }
    } else if b.len() == 0 {
        Ordering::Greater
    } else if a[0] < b[0] {
        Ordering::Less
    } else if a[0] > b[0] {
        Ordering::Greater
    } else {
        lex_cmp(a.drop_first(), b.drop_first())
    }
}

/// `a` is lexicographically less than `b`: after a common prefix, either `a`
/// ends while `b` goes on, or `a` has the smaller byte.
pub open spec fn lex_less(a: Seq<u8>, b: Seq<u8>) -> bool {
    exists|k: int|
        0 <= k <= a.len() && k <= b.len() && #[trigger] a.subrange(0, k) == b.subrange(0, k) && (
        (k == a.len() && k < b.len()) || (k < a.len() && k < b.len() && a[k] < b[k]))
}

/// Compares two byte sequences lexicographically.
pub fn compare_bytes(a: &[u8], b: &[u8]) -> (r: Ordering)
    ensures
        r == lex_cmp(a@, b@),
{
    let n = a.len();
    let m = b.len();
    let mut i: usize = 0;
    assert(a@.subrange(0, a@.len() as int) =~= a@);
    assert(b@.subrange(0, b@.len() as int) =~= b@);
    while i < n && i < m
        invariant
            n == a@.len(),
            m == b@.len(),
            i <= n,
            i <= m,
            lex_cmp(a@, b@) == lex_cmp(
                a@.subrange(i as int, n as int),
                b@.subrange(i as int, m as int),
            ),
        decreases n - i,
    {
        if a[i] < b[i] {
            return Ordering::Less;
        }
        if a[i] > b[i] {
            return Ordering::Greater;
        }
        assert(a@.subrange(i as int, n as int).drop_first() =~= a@.subrange(i + 1, n as int));
        assert(b@.subrange(i as int, m as int).drop_first() =~= b@.subrange(i + 1, m as int));
        i = i + 1;
    }
    if i < m {
        Ordering::Less
    } else if i < n {
        Ordering::Greater
    } else {
        Ordering::Equal
    }
}

/// Two byte sequences compare `Equal` exactly when they are equal.
pub proof fn lemma_lex_cmp_equal(a: Seq<u8>, b: Seq<u8>)
    ensures
        (lex_cmp(a, b) == Ordering::Equal) <==> a == b,
    decreases a.len(),
{
    if a.len() == 0 && b.len() == 0 {
        assert(a =~= b);
    }
    if a.len() > 0 && b.len() > 0 && a[0] == b[0] {
        lemma_lex_cmp_equal(a.drop_first(), b.drop_first());
        if a.drop_first() == b.drop_first() {
            assert(a =~= seq![a[0]] + a.drop_first());
            assert(b =~= seq![b[0]] + b.drop_first());
        }
        if a == b {
            assert(a.drop_first() == b.drop_first());
        }
    }
}

/// Swapping the operands swaps `Less` and `Greater`.
pub proof fn lemma_lex_cmp_swap(a: Seq<u8>, b: Seq<u8>)
    ensures
        (lex_cmp(a, b) == Ordering::Less) <==> (lex_cmp(b, a) == Ordering::Greater),
        (lex_cmp(a, b) == Ordering::Equal) <==> (lex_cmp(b, a) == Ordering::Equal),
    decreases a.len(),
{
    if a.len() > 0 && b.len() > 0 && a[0] == b[0] {
        lemma_lex_cmp_swap(a.drop_first(), b.drop_first());
    }
}

/// The comparison says `Less` exactly when `a` is lexicographically less
/// than `b`.
pub proof fn lemma_lex_cmp_less(a: Seq<u8>, b: Seq<u8>)
    ensures
        (lex_cmp(a, b) == Ordering::Less) <==> lex_less(a, b),
    decreases a.len(),
{
    if a.len() == 0 {
        if b.len() > 0 {
            assert(a.subrange(0, 0) == b.subrange(0, 0));
        }
    } else if b.len() == 0 {
    } else if a[0] < b[0] {
        assert(a.subrange(0, 0) =~= b.subrange(0, 0));
    } else if a[0] > b[0] {
        if lex_less(a, b) {
            let k = choose|k: int|
                0 <= k <= a.len() && k <= b.len() && #[trigger] a.subrange(0, k) == b.subrange(
                    0,
                    k,
                ) && ((k == a.len() && k < b.len()) || (k < a.len() && k < b.len() && a[k]
                    < b[k]));
            if k > 0 {
                assert(a.subrange(0, k)[0] == b.subrange(0, k)[0]);
            }
        }
    } else {
        let a1 = a.drop_first();
        let b1 = b.drop_first();
        lemma_lex_cmp_less(a1, b1);
        if lex_less(a1, b1) {
            let k = choose|k: int|
                0 <= k <= a1.len() && k <= b1.len() && #[trigger] a1.subrange(0, k)
                    == b1.subrange(0, k) && ((k == a1.len() && k < b1.len()) || (k < a1.len() && k
                    < b1.len() && a1[k] < b1[k]));
            assert(a.subrange(0, k + 1) =~= seq![a[0]] + a1.subrange(0, k));
            assert(b.subrange(0, k + 1) =~= seq![b[0]] + b1.subrange(0, k));
            assert(a.subrange(0, k + 1) == b.subrange(0, k + 1));
        }
        if lex_less(a, b) {
            let k = choose|k: int|
                0 <= k <= a.len() && k <= b.len() && #[trigger] a.subrange(0, k) == b.subrange(
                    0,
                    k,
                ) && ((k == a.len() && k < b.len()) || (k < a.len() && k < b.len() && a[k]
                    < b[k]));
            if k == 0 {
                assert(false);
            }
            assert(a1.subrange(0, k - 1) =~= a.subrange(0, k).drop_first());
            assert(b1.subrange(0, k - 1) =~= b.subrange(0, k).drop_first());
            assert(a1.subrange(0, k - 1) == b1.subrange(0, k - 1));
        }
    }
}

/// Views are ordered as their bytes: `a < b` exactly when the bytes of `a`
/// are lexicographically less than those of `b` by unsigned value, and
/// `a == b` exactly when the bytes are equal.
pub proof fn lemma_order_by_bytes(a: RawStr, b: RawStr)
    ensures
        (a.partial_cmp_spec(&b) == Some(Ordering::Less)) <==> lex_less(a@, b@),
        a.eq_spec(&b) <==> a@ == b@,
        (a.partial_cmp_spec(&b) == Some(Ordering::Equal)) <==> a@ == b@,
{
    lemma_lex_cmp_less(a@, b@);
    lemma_lex_cmp_equal(a@, b@);
}

/// Comparing with a string gives what comparing with the view of its bytes
/// gives.
pub proof fn lemma_str_operand_as_bytes(a: RawStr, s: &str, v: RawStr)
    requires
        v@ == s.spec_bytes(),
    ensures
        a.eq_spec(&s) == a.eq_spec(&v),
        a.partial_cmp_spec(&s) == a.partial_cmp_spec(&v),
{
}

impl<'a, 'b> PartialEq<RawStr<'b>> for RawStr<'a> {
    fn eq(&self, other: &RawStr<'b>) -> (r: bool) {
        proof {
            lemma_lex_cmp_equal(self@, other@);
        }
        matches!(compare_bytes(self.as_bytes(), other.as_bytes()), Ordering::Equal)
    }
}

impl<'a, 'b> vstd::std_specs::cmp::PartialEqSpecImpl<RawStr<'b>> for RawStr<'a> {
    open spec fn obeys_eq_spec() -> bool {
        true
    }

    open spec fn eq_spec(&self, other: &RawStr<'b>) -> bool {
        self@ == other@
    }
}

impl<'a> Eq for RawStr<'a> {

}

impl<'a, 'b> PartialOrd<RawStr<'b>> for RawStr<'a> {
    fn partial_cmp(&self, other: &RawStr<'b>) -> (r: Option<Ordering>) {
        Some(compare_bytes(self.as_bytes(), other.as_bytes()))
    }
}

impl<'a, 'b> vstd::std_specs::cmp::PartialOrdSpecImpl<RawStr<'b>> for RawStr<'a> {
    open spec fn obeys_partial_cmp_spec() -> bool {
        true
    }

    open spec fn partial_cmp_spec(&self, other: &RawStr<'b>) -> Option<Ordering> {
        Some(lex_cmp(self@, other@))
    }
}

impl<'a, 'b> PartialEq<&'b str> for RawStr<'a> {
    fn eq(&self, other: &&'b str) -> (r: bool) {
        proof {
            lemma_lex_cmp_equal(self@, other.spec_bytes());
        }
        matches!(compare_bytes(self.as_bytes(), other.as_bytes()), Ordering::Equal)
    }
}

impl<'a, 'b> vstd::std_specs::cmp::PartialEqSpecImpl<&'b str> for RawStr<'a> {
    open spec fn obeys_eq_spec() -> bool {
        true
    }

    open spec fn eq_spec(&self, other: &&'b str) -> bool {
        self@ == other.spec_bytes()
    }
}

impl<'a, 'b> PartialOrd<&'b str> for RawStr<'a> {
    fn partial_cmp(&self, other: &&'b str) -> (r: Option<Ordering>) {
        Some(compare_bytes(self.as_bytes(), other.as_bytes()))
    }
}

impl<'a, 'b> vstd::std_specs::cmp::PartialOrdSpecImpl<&'b str> for RawStr<'a> {
    open spec fn obeys_partial_cmp_spec() -> bool {
        true
    }

    open spec fn partial_cmp_spec(&self, other: &&'b str) -> Option<Ordering> {
        Some(lex_cmp(self@, other.spec_bytes()))
    }
}

impl<'a, 'b> PartialEq<&'b [u8]> for RawStr<'a> {
    fn eq(&self, other: &&'b [u8]) -> (r: bool) {
        proof {
            lemma_lex_cmp_equal(self@, other@);
        }
        matches!(compare_bytes(self.as_bytes(), other), Ordering::Equal)
    }
}

impl<'a, 'b> vstd::std_specs::cmp::PartialEqSpecImpl<&'b [u8]> for RawStr<'a> {
    open spec fn obeys_eq_spec() -> bool {
        true
    }

    open spec fn eq_spec(&self, other: &&'b [u8]) -> bool {
        self@ == other@
    }
}

impl<'a, 'b> PartialOrd<&'b [u8]> for RawStr<'a> {
    fn partial_cmp(&self, other: &&'b [u8]) -> (r: Option<Ordering>) {
        Some(compare_bytes(self.as_bytes(), other))
    }
}

impl<'a, 'b> vstd::std_specs::cmp::PartialOrdSpecImpl<&'b [u8]> for RawStr<'a> {
    open spec fn obeys_partial_cmp_spec() -> bool {
        true
    }

    open spec fn partial_cmp_spec(&self, other: &&'b [u8]) -> Option<Ordering> {
        Some(lex_cmp(self@, other@))
    }
}

impl<'a, 'b> PartialEq<RawStr<'a>> for &'b str {
    fn eq(&self, other: &RawStr<'a>) -> (r: bool) {
        proof {
            lemma_lex_cmp_equal(self.spec_bytes(), other@);
        }
        matches!(compare_bytes(self.as_bytes(), other.as_bytes()), Ordering::Equal)
    }
}

impl<'a, 'b> vstd::std_specs::cmp::PartialEqSpecImpl<RawStr<'a>> for &'b str {
    open spec fn obeys_eq_spec() -> bool {
        true
    }

    open spec fn eq_spec(&self, other: &RawStr<'a>) -> bool {
        self.spec_bytes() == other@
    }
}

impl<'a, 'b> PartialOrd<RawStr<'a>> for &'b str {
    fn partial_cmp(&self, other: &RawStr<'a>) -> (r: Option<Ordering>) {
        Some(compare_bytes(self.as_bytes(), other.as_bytes()))
    }
}

impl<'a, 'b> vstd::std_specs::cmp::PartialOrdSpecImpl<RawStr<'a>> for &'b str {
    open spec fn obeys_partial_cmp_spec() -> bool {
        true
    }

    open spec fn partial_cmp_spec(&self, other: &RawStr<'a>) -> Option<Ordering> {
        Some(lex_cmp(self.spec_bytes(), other@))
    }
}

/// Comparison across types is symmetric: a string equals a view exactly
/// when the view equals the string, and is greater exactly when the view is
/// less.
pub proof fn lemma_str_eq_symmetric(a: RawStr, s: &str)
    ensures
        a.eq_spec(&s) == (&s).eq_spec(&a),
        a.partial_cmp_spec(&s) == Some(Ordering::Less) <==> (&s).partial_cmp_spec(&a) == Some(
            Ordering::Greater,
        ),
{
    lemma_lex_cmp_swap(a@, s.spec_bytes());
}

impl PartialEq for RawString {
    fn eq(&self, other: &RawString) -> (r: bool) {
        proof {
            lemma_lex_cmp_equal(self@, other@);
        }
        matches!(
            compare_bytes(self.as_raw_str().as_bytes(), other.as_raw_str().as_bytes()),
            Ordering::Equal
        )
    }
}

impl vstd::std_specs::cmp::PartialEqSpecImpl for RawString {
    open spec fn obeys_eq_spec() -> bool {
        true
    }

    open spec fn eq_spec(&self, other: &RawString) -> bool {
        self@ == other@
    }
}

impl Eq for RawString {

}

impl PartialOrd for RawString {
    fn partial_cmp(&self, other: &RawString) -> (r: Option<Ordering>) {
        Some(compare_bytes(self.as_raw_str().as_bytes(), other.as_raw_str().as_bytes()))
    }
}

impl vstd::std_specs::cmp::PartialOrdSpecImpl for RawString {
    open spec fn obeys_partial_cmp_spec() -> bool {
        true
    }

    open spec fn partial_cmp_spec(&self, other: &RawString) -> Option<Ordering> {
        Some(lex_cmp(self@, other@))
    }
}

impl<'b> PartialEq<RawStr<'b>> for RawString {
    fn eq(&self, other: &RawStr<'b>) -> (r: bool) {
        proof {
            lemma_lex_cmp_equal(self@, other@);
        }
        matches!(compare_bytes(self.as_raw_str().as_bytes(), other.as_bytes()), Ordering::Equal)
    }
}

impl<'b> vstd::std_specs::cmp::PartialEqSpecImpl<RawStr<'b>> for RawString {
    open spec fn obeys_eq_spec() -> bool {
        true
    }

    open spec fn eq_spec(&self, other: &RawStr<'b>) -> bool {
        self@ == other@
    }
}

impl<'b> PartialOrd<RawStr<'b>> for RawString {
    fn partial_cmp(&self, other: &RawStr<'b>) -> (r: Option<Ordering>) {
        Some(compare_bytes(self.as_raw_str().as_bytes(), other.as_bytes()))
    }
}

impl<'b> vstd::std_specs::cmp::PartialOrdSpecImpl<RawStr<'b>> for RawString {
    open spec fn obeys_partial_cmp_spec() -> bool {
        true
    }

    open spec fn partial_cmp_spec(&self, other: &RawStr<'b>) -> Option<Ordering> {
        Some(lex_cmp(self@, other@))
    }
}

impl<'b> PartialEq<&'b str> for RawString {
    fn eq(&self, other: &&'b str) -> (r: bool) {
        proof {
            lemma_lex_cmp_equal(self@, other.spec_bytes());
        }
        matches!(compare_bytes(self.as_raw_str().as_bytes(), other.as_bytes()), Ordering::Equal)
    }
}

impl<'b> vstd::std_specs::cmp::PartialEqSpecImpl<&'b str> for RawString {
    open spec fn obeys_eq_spec() -> bool {
        true
    }

    open spec fn eq_spec(&self, other: &&'b str) -> bool {
        self@ == other.spec_bytes()
    }
}

impl<'b> PartialOrd<&'b str> for RawString {
    fn partial_cmp(&self, other: &&'b str) -> (r: Option<Ordering>) {
        Some(compare_bytes(self.as_raw_str().as_bytes(), other.as_bytes()))
    }
}

impl<'b> vstd::std_specs::cmp::PartialOrdSpecImpl<&'b str> for RawString {
    open spec fn obeys_partial_cmp_spec() -> bool {
        true
    }

    open spec fn partial_cmp_spec(&self, other: &&'b str) -> Option<Ordering> {
        Some(lex_cmp(self@, other.spec_bytes()))
    }
}

} // verus!
