//! Scanning of UTF-8 byte sequences.
//!
//! A well-formed character is described here by the byte table of the
//! Unicode standard (lead byte, permitted second byte, continuation bytes).
//! The lemmas of this module tie that table to vstd's `valid_utf8`.
use vstd::prelude::*;
use vstd::utf8::*;

verus! {

broadcast use vstd::seq::group_seq_axioms;

/// Number of bytes of the character that starts with lead byte `b`, or 0 when
/// `b` cannot start a well-formed character.
pub open spec fn char_width(b: u8) -> nat {
    if b <= 0x7f {
        1
    } else if 0xc2 <= b <= 0xdf {
        2
    } else if 0xe0 <= b <= 0xef {
        3
    } else if 0xf0 <= b <= 0xf4 {
        4
    } else {
        0
    }
}

/// Whether `b1` may follow the multi-byte lead byte `b0`.
pub open spec fn second_byte_fits(b0: u8, b1: u8) -> bool {
    if b0 == 0xe0 {
        0xa0 <= b1 <= 0xbf
    } else if b0 == 0xed {
        0x80 <= b1 <= 0x9f
    } else if b0 == 0xf0 {
        0x90 <= b1 <= 0xbf
    } else if b0 == 0xf4 {
        0x80 <= b1 <= 0x8f
    } else {
        0x80 <= b1 <= 0xbf
    }
}

/// The number of leading bytes of `s` that agree with the beginning of some
/// well-formed character (at most that character's width).
pub open spec fn leading_run(s: Seq<u8>) -> nat {
    if s.len() == 0 || char_width(s[0]) == 0 {
        0
    } else if char_width(s[0]) == 1 || s.len() < 2 || !second_byte_fits(s[0], s[1]) {
        1
    } else if char_width(s[0]) == 2 || s.len() < 3 || !is_continuation_byte(s[2]) {
        2
    } else if char_width(s[0]) == 3 || s.len() < 4 || !is_continuation_byte(s[3]) {
        3
    } else {
        4
    }
}

/// Whether `s` begins with a complete, well-formed character.
pub open spec fn starts_with_char(s: Seq<u8>) -> bool {
    s.len() > 0 && char_width(s[0]) != 0 && leading_run(s) == char_width(s[0])
}

/// Length of the longest prefix of `s` made of well-formed characters, read
/// from the front.
pub open spec fn valid_prefix_len(s: Seq<u8>) -> nat
    decreases s.len(),
{
    if starts_with_char(s) {
        let w = char_width(s[0]);
        w + valid_prefix_len(s.subrange(w as int, s.len() as int))
    } else {
        0
    }
}

/// Length of the malformed run at the front of `s`, which does not start
/// with a well-formed character: the bytes that could still begin one, and
/// at least one byte.
pub open spec fn broken_len(s: Seq<u8>) -> nat {
    if leading_run(s) == 0 {
        1
    } else {
        leading_run(s)
    }
}

proof fn lemma_first_scalar_width_2(b0: u8, b1: u8)
    requires
        0xc0 <= b0 <= 0xdf,
        0x80 <= b1 <= 0xbf,
    ensures
        not_overlong_encoding(codepoint_width_2(b0, b1), 2) <==> 0xc2 <= b0,
        not_surrogate(codepoint_width_2(b0, b1)),
{
    assert((((b0 & 0x1F) as u32) << 6) | ((b1 & 0x3f) as u32) >= 0x80 <==> b0 >= 0xc2)
        by (bit_vector)
        requires
            0xc0 <= b0 <= 0xdf,
            0x80 <= b1 <= 0xbf,
    ;
    assert((((b0 & 0x1F) as u32) << 6) | ((b1 & 0x3f) as u32) < 0x800) by (bit_vector);
}

proof fn lemma_first_scalar_width_3(b0: u8, b1: u8, b2: u8)
    requires
        0xe0 <= b0 <= 0xef,
        is_continuation_byte(b1),
        is_continuation_byte(b2),
    ensures
        (not_overlong_encoding(codepoint_width_3(b0, b1, b2), 3) && not_surrogate(
            codepoint_width_3(b0, b1, b2),
        )) <==> second_byte_fits(b0, b1),
{
    let c = codepoint_width_3(b0, b1, b2);
    assert((((b0 & 0x0F) as u32) << 12) | (((b1 & 0x3f) as u32) << 6) | ((b2 & 0x3f) as u32)
        >= 0x800 <==> (b0 != 0xe0 || b1 >= 0xa0)) by (bit_vector)
        requires
            0xe0 <= b0 <= 0xef,
            0x80 <= b1 <= 0xbf,
            0x80 <= b2 <= 0xbf,
    ;
    assert((0xD800 <= ((((b0 & 0x0F) as u32) << 12) | (((b1 & 0x3f) as u32) << 6) | ((b2
        & 0x3f) as u32)) <= 0xDFFF) <==> (b0 == 0xed && b1 >= 0xa0)) by (bit_vector)
        requires
            0xe0 <= b0 <= 0xef,
            0x80 <= b1 <= 0xbf,
            0x80 <= b2 <= 0xbf,
    ;
}

proof fn lemma_first_scalar_width_4(b0: u8, b1: u8, b2: u8, b3: u8)
    requires
        0xf0 <= b0 <= 0xf7,
        is_continuation_byte(b1),
        is_continuation_byte(b2),
        is_continuation_byte(b3),
    ensures
        (not_overlong_encoding(codepoint_width_4(b0, b1, b2, b3), 4) && not_surrogate(
            codepoint_width_4(b0, b1, b2, b3),
        )) <==> (b0 <= 0xf4 && second_byte_fits(b0, b1)),
{
    assert({
        let c = (((b0 & 0x07) as u32) << 18) | (((b1 & 0x3f) as u32) << 12) | (((b2
            & 0x3f) as u32) << 6) | ((b3 & 0x3f) as u32);
        (0x10000 <= c <= 0x10ffff) <==> (b0 <= 0xf4 && (b0 != 0xf0 || b1 >= 0x90) && (b0
            != 0xf4 || b1 <= 0x8f))
    }) by (bit_vector)
        requires
            0xf0 <= b0 <= 0xf7,
            0x80 <= b1 <= 0xbf,
            0x80 <= b2 <= 0xbf,
            0x80 <= b3 <= 0xbf,
    ;
    assert({
        let c = (((b0 & 0x07) as u32) << 18) | (((b1 & 0x3f) as u32) << 12) | (((b2
            & 0x3f) as u32) << 6) | ((b3 & 0x3f) as u32);
        0x10000 <= c ==> !(0xD800 <= c <= 0xDFFF)
    }) by (bit_vector);
}

/// The byte table describes exactly vstd's well-formed first scalar.
pub proof fn lemma_starts_with_char(s: Seq<u8>)
    requires
        s.len() > 0,
    ensures
        valid_first_scalar(s) <==> starts_with_char(s),
        starts_with_char(s) ==> length_of_first_scalar(s) == char_width(s[0]),
{
    let b0 = s[0];
    if b0 <= 0x7f {
        assert((b0 & 0x7F) as u32 <= 0x7f) by (bit_vector);
    } else if 0xc0 <= b0 <= 0xdf {
        if s.len() >= 2 && is_continuation_byte(s[1]) {
            lemma_first_scalar_width_2(b0, s[1]);
        }
    } else if 0xe0 <= b0 <= 0xef {
        if s.len() >= 3 && is_continuation_byte(s[1]) && is_continuation_byte(s[2]) {
            lemma_first_scalar_width_3(b0, s[1], s[2]);
        }
    } else if 0xf0 <= b0 <= 0xf7 {
        if s.len() >= 4 && is_continuation_byte(s[1]) && is_continuation_byte(s[2])
            && is_continuation_byte(s[3]) {
            lemma_first_scalar_width_4(b0, s[1], s[2], s[3]);
        }
    }
}

/// A sequence is valid UTF-8 exactly when its well-formed prefix is all of it.
pub proof fn lemma_valid_utf8_iff(s: Seq<u8>)
    ensures
        valid_prefix_len(s) <= s.len(),
        valid_utf8(s) <==> valid_prefix_len(s) == s.len(),
        valid_utf8(s.subrange(0, valid_prefix_len(s) as int)),
    decreases s.len(),
{
    if s.len() == 0 {
        assert(s.subrange(0, 0) =~= s);
    } else {
        lemma_starts_with_char(s);
        if starts_with_char(s) {
            let w = char_width(s[0]);
            let rest = s.subrange(w as int, s.len() as int);
            assert(pop_first_scalar(s) == rest);
            lemma_valid_utf8_iff(rest);
            let v = valid_prefix_len(s);
            let head = s.subrange(0, w as int);
            let tail = rest.subrange(0, valid_prefix_len(rest) as int);
            assert(s.subrange(0, v as int) =~= head + tail);
            lemma_starts_with_char(head);
            assert(head.subrange(w as int, head.len() as int) =~= Seq::<u8>::empty());
            assert(valid_utf8(head)) by {
                assert(head[0] == s[0]);
                assert(starts_with_char(head));
                assert(pop_first_scalar(head) =~= Seq::<u8>::empty());
                assert(valid_utf8(Seq::<u8>::empty()));
            }
            valid_utf8_concat(head, tail);
        } else {
            assert(s.subrange(0, 0) =~= Seq::<u8>::empty());
        }
    }
}

/// Valid text in front of other bytes extends their well-formed prefix by
/// its own length.
pub proof fn lemma_valid_prefix_concat(a: Seq<u8>, x: Seq<u8>)
    requires
        valid_utf8(a),
    ensures
        valid_prefix_len(a + x) == a.len() + valid_prefix_len(x),
    decreases a.len(),
{
    if a.len() == 0 {
        assert(a + x =~= x);
    } else {
        lemma_starts_with_char(a);
        let w = char_width(a[0]);
        let s = a + x;
        assert(s[0] == a[0]);
        assert(leading_run(s) == leading_run(a));
        let tail = a.subrange(w as int, a.len() as int);
        assert(pop_first_scalar(a) == tail);
        assert(s.subrange(w as int, s.len() as int) =~= tail + x);
        lemma_valid_prefix_concat(tail, x);
    }
}

/// Whether `b1` may follow the multi-byte lead byte `b0`.
fn fits_second(b0: u8, b1: u8) -> (r: bool)
    ensures
        r == second_byte_fits(b0, b1),
{
    if b0 == 0xe0 {
        0xa0 <= b1 && b1 <= 0xbf
    } else if b0 == 0xed {
        0x80 <= b1 && b1 <= 0x9f
    } else if b0 == 0xf0 {
        0x90 <= b1 && b1 <= 0xbf
    } else if b0 == 0xf4 {
        0x80 <= b1 && b1 <= 0x8f
    } else {
        0x80 <= b1 && b1 <= 0xbf
    }
}

fn is_continuation(b: u8) -> (r: bool)
    ensures
        r == is_continuation_byte(b),
{
    0x80 <= b && b <= 0xbf
}

/// Reads the lead byte at `i`: returns the width of the character it starts
/// and how many bytes from `i` on agree with such a character.
pub fn scan_char(s: &[u8], i: usize) -> (r: (usize, usize))
    requires
        i < s@.len(),
    ensures
        r.0 == char_width(s@[i as int]),
        r.1 == leading_run(s@.subrange(i as int, s@.len() as int)),
{
    let ghost rest = s@.subrange(i as int, s@.len() as int);
    let b0 = s[i];
    let w: usize = if b0 <= 0x7f {
        1
    } else if 0xc2 <= b0 && b0 <= 0xdf {
        2
    } else if 0xe0 <= b0 && b0 <= 0xef {
        3
    } else if 0xf0 <= b0 && b0 <= 0xf4 {
        4
    } else {
        0
    };
    if w <= 1 {
        return (w, w);
    }
    let n = s.len() - i;
    if n < 2 || !fits_second(b0, s[i + 1]) {
        return (w, 1);
    }
    if w == 2 || n < 3 || !is_continuation(s[i + 2]) {
        return (w, 2);
    }
    if w == 3 || n < 4 || !is_continuation(s[i + 3]) {
        return (w, 3);
    }
    (w, 4)
}

/// The length of the longest prefix of `s` that is valid UTF-8.
pub fn valid_up_to(s: &[u8]) -> (r: usize)
    ensures
        r == valid_prefix_len(s@),
{
    let mut i: usize = 0;
    assert(s@.subrange(0, s@.len() as int) =~= s@);
    while i < s.len()
        invariant
            i <= s@.len(),
            valid_prefix_len(s@) == i + valid_prefix_len(s@.subrange(i as int, s@.len() as int)),
        decreases s@.len() - i,
    {
        let ghost rest = s@.subrange(i as int, s@.len() as int);
        let (w, run) = scan_char(s, i);
        if w != 0 && run == w {
            assert(rest.subrange(w as int, rest.len() as int) =~= s@.subrange(
                (i + w) as int,
                s@.len() as int,
            ));
            i = i + w;
        } else {
            return i;
        }
    }
    assert(s@.subrange(i as int, s@.len() as int).len() == 0);
    i
}

} // verus!
