//! Rendering a `RawStr` as text: lossy for display, escaped for debugging.
use vstd::prelude::*;
use vstd::string::{StrSliceExecFns, StringExecFns, StringSliceAdditionalSpecFns};
use vstd::utf8::*;

use crate::raw_str::RawStr;
use crate::utf8::{broken_len, lemma_valid_prefix_concat, lemma_valid_utf8_iff, starts_with_char, valid_prefix_len};
use crate::utf8_chunks::utf8_chunks_of;

verus! {

broadcast use {
    vstd::seq::group_seq_axioms,
    vstd::string::group_string_axioms,
    vstd::utf8::encode_utf8_decode_utf8,
};

/// The character shown in place of a malformed run.
pub const REPLACEMENT_CHARACTER: char = '\u{FFFD}';

/// What `char::escape_debug` gives for `c`.
pub uninterp spec fn debug_escape(c: char) -> Seq<char>;

/// Relies on `char::escape_debug`: the escape depends on the character alone.
#[verifier::external_body]
fn escape_debug(c: char) -> (r: String)
    ensures
        r@ == debug_escape(c),
{
    c.escape_debug().collect()
}

/// Relies on `String::push`: appends one character.
#[verifier::external_body]
fn push_char(s: &mut String, c: char)
    ensures
        final(s)@ == old(s)@.push(c),
{
    s.push(c)
}

/// How a character with standard escape `escape` is shown by the debug
/// rendering: the escape where it is longer than one character, else the
/// character itself.
pub open spec fn debug_piece(c: char, escape: Seq<char>) -> Seq<char> {
    if escape.len() != 1 {
        escape
    } else {
        seq![c]
    }
}

/// How one character of a valid part is shown by the debug rendering.
pub open spec fn debug_char(c: char) -> Seq<char> {
    debug_piece(c, debug_escape(c))
}

/// Appends to `out` how the character `c`, whose standard escape is
/// `escape`, is shown by the debug rendering.
pub fn push_debug_piece(out: &mut String, c: char, escape: &str)
    ensures
        final(out)@ == old(out)@ + debug_piece(c, escape@),
{
    if escape.unicode_len() != 1 {
        out.append(escape);
    } else {
        push_char(out, c);
    }
}

/// The debug rendering of valid text, character by character.
pub open spec fn debug_text(cs: Seq<char>) -> Seq<char>
    decreases cs.len(),
{
    if cs.len() == 0 {
        seq![]
    } else {
        debug_text(cs.drop_last()) + debug_char(cs.last())
    }
}

/// A lower-case hexadecimal digit.
pub open spec fn hex_digit(d: u8) -> char {
    if d < 10 {
        (48 + d) as char
    } else {
        (87 + d) as char
    }
}

/// The escape `\xHH` of one malformed byte.
pub open spec fn hex_escape(b: u8) -> Seq<char> {
    seq!['\\', 'x', hex_digit(b / 16), hex_digit(b % 16)]
}

/// The escapes of a malformed run, one per byte.
pub open spec fn hex_escapes(bs: Seq<u8>) -> Seq<char>
    decreases bs.len(),
{
    if bs.len() == 0 {
        seq![]
    } else {
        hex_escapes(bs.drop_last()) + hex_escape(bs.last())
    }
}

/// A malformed run shows as one four-character `\xHH` escape per byte, in
/// order: the debug rendering never merges the bytes of a run.
pub proof fn lemma_hex_escapes_per_byte(bs: Seq<u8>)
    ensures
        hex_escapes(bs).len() == 4 * bs.len(),
        forall|i: int|
            0 <= i < bs.len() ==> #[trigger] hex_escapes(bs).subrange(4 * i, 4 * i + 4)
                == hex_escape(bs[i]),
    decreases bs.len(),
{
    if bs.len() > 0 {
        let init = bs.drop_last();
        lemma_hex_escapes_per_byte(init);
        let h = hex_escapes(bs);
        assert forall|i: int| 0 <= i < bs.len() implies #[trigger] h.subrange(4 * i, 4 * i + 4)
            == hex_escape(bs[i]) by {
            if i < init.len() {
                assert(h.subrange(4 * i, 4 * i + 4) =~= hex_escapes(init).subrange(4 * i, 4 * i + 4));
            } else {
                assert(h.subrange(4 * i, 4 * i + 4) =~= hex_escape(bs.last()));
            }
        }
    }
}

/// The display rendering of chunks: each valid part as it is, and one
/// replacement character for each non-empty malformed run.
pub open spec fn display_chunks(cs: Seq<(Seq<u8>, Seq<u8>)>) -> Seq<char>
    decreases cs.len(),
{
    if cs.len() == 0 {
        seq![]
    } else {
        display_chunks(cs.drop_last()) + decode_utf8(cs.last().0) + if cs.last().1.len() > 0 {
            seq![REPLACEMENT_CHARACTER]
        } else {
            Seq::<char>::empty()
        }
    }
}

/// The debug rendering of chunks, without the surrounding quotes: each valid
/// part escaped, and one `\xHH` escape for each malformed byte.
pub open spec fn debug_chunks(cs: Seq<(Seq<u8>, Seq<u8>)>) -> Seq<char>
    decreases cs.len(),
{
    if cs.len() == 0 {
        seq![]
    } else {
        debug_chunks(cs.drop_last()) + debug_text(decode_utf8(cs.last().0)) + hex_escapes(
            cs.last().1,
        )
    }
}

/// What `bytes` displays as.
pub open spec fn display_of(bytes: Seq<u8>) -> Seq<char> {
    display_chunks(utf8_chunks_of(bytes))
}

/// What `bytes` shows as in debug output, quotes included.
pub open spec fn debug_of(bytes: Seq<u8>) -> Seq<char> {
    seq!['"'] + debug_chunks(utf8_chunks_of(bytes)) + seq!['"']
}

/// A malformed run between two valid texts displays as exactly one
/// replacement character, however many bytes the run holds, while the debug
/// rendering shows one `\xHH` escape for each of its bytes.
///
/// The run `r` is one maximal malformed run: what follows the valid text
/// does not start with a well-formed character, and the run is as long as
/// the malformed sequence found there.
pub proof fn lemma_one_run_one_replacement(a: Seq<u8>, r: Seq<u8>, b: Seq<u8>)
    requires
        valid_utf8(a),
        valid_utf8(b),
        r.len() > 0,
        !starts_with_char(r + b),
        broken_len(r + b) == r.len(),
    ensures
        display_of(a + r + b) == decode_utf8(a) + seq![REPLACEMENT_CHARACTER] + decode_utf8(b),
        debug_of(a + r + b) == seq!['"'] + debug_text(decode_utf8(a)) + hex_escapes(r)
            + debug_text(decode_utf8(b)) + seq!['"'],
{
    let s = a + r + b;
    assert(s =~= a + (r + b));
    lemma_valid_prefix_concat(a, r + b);
    assert(valid_prefix_len(r + b) == 0);
    let v = a.len() as int;
    assert(s.subrange(v, s.len() as int) =~= r + b);
    assert(s.subrange(0, v) =~= a);
    let e = v + r.len();
    assert(s.subrange(v, e) =~= r);
    assert(s.subrange(e, s.len() as int) =~= b);
    let first = seq![(a, r)];
    lemma_valid_utf8_iff(b);
    let cs = utf8_chunks_of(s);
    let none: Seq<(Seq<u8>, Seq<u8>)> = seq![];
    assert(first.drop_last() =~= none);
    assert(display_chunks(none) == Seq::<char>::empty());
    assert(debug_chunks(none) == Seq::<char>::empty());
    let shown_a = decode_utf8(a) + seq![REPLACEMENT_CHARACTER];
    let debug_a = debug_text(decode_utf8(a)) + hex_escapes(r);
    assert(display_chunks(first) =~= shown_a);
    assert(debug_chunks(first) =~= debug_a);
    if b.len() == 0 {
        assert(utf8_chunks_of(b) =~= seq![]);
        assert(cs =~= first);
        assert(decode_utf8(b) =~= seq![]);
        assert(debug_text(decode_utf8(b)) =~= seq![]);
        assert(display_of(s) =~= shown_a + decode_utf8(b));
        assert(debug_of(s) =~= seq!['"'] + debug_a + debug_text(decode_utf8(b)) + seq!['"']);
    } else {
        let last = (b, Seq::<u8>::empty());
        assert(utf8_chunks_of(b) =~= seq![last]);
        assert(cs =~= first + seq![last]);
        assert(cs.drop_last() =~= first);
        assert(cs.last() == last);
        assert(hex_escapes(Seq::<u8>::empty()) =~= seq![]);
        assert(display_chunks(cs) =~= shown_a + decode_utf8(b));
        assert(debug_chunks(cs) =~= debug_a + debug_text(decode_utf8(b)));
    }
}

fn hex_char(d: u8) -> (r: char)
    requires
        d < 16,
    ensures
        r == hex_digit(d),
{
    if d < 10 {
        (48 + d) as char
    } else {
        (87 + d) as char
    }
}

/// Appends the debug rendering of the valid text `s` to `out`.
pub fn write_escaped_str(out: &mut String, s: &str)
    ensures
        final(out)@ == old(out)@ + debug_text(s@),
{
    let ghost start = out@;
    let ghost cs = s@;
    for c in it: s.chars()
        invariant
            it.seq() == cs,
            out@ == start + debug_text(cs.subrange(0, it.index() as int)),
    {
        let ghost i = it.index();
        assert(c == cs[i]);
        assert(cs.subrange(0, i + 1).drop_last() =~= cs.subrange(0, i));
        let e = escape_debug(c);
        push_debug_piece(out, c, e.as_str());
        assert(out@ =~= start + debug_text(cs.subrange(0, i + 1)));
    }
    assert(cs.subrange(0, cs.len() as int) =~= cs);
}

impl<'a> RawStr<'a> {
    /// The text shown for these bytes: each valid part as it is, and one
    /// U+FFFD REPLACEMENT CHARACTER for each malformed run, however many
    /// bytes it holds.
    pub fn to_display_string(&self) -> (r: String)
        ensures
            r@ == display_of(self@),
    {
        let mut out = String::new();
        let mut it = self.utf8_chunks();
        let ghost all = it.remaining();
        let ghost mut done: Seq<(Seq<u8>, Seq<u8>)> = seq![];
        loop
            invariant
                all == done + it.remaining(),
                all == utf8_chunks_of(self@),
                out@ == display_chunks(done),
            ensures
                out@ == display_chunks(all),
            decreases it@.len(),
        {
            match it.next() {
                None => {
                    assert(it.remaining() =~= seq![]);
                    assert(all =~= done);
                    break;
                },
                Some(c) => {
                    let ghost before = done;
                    proof {
                        done = done.push(c@);
                        assert(done.drop_last() =~= before);
                    }
                    out.append(c.valid);
                    if c.broken.len() > 0 {
                        push_char(&mut out, REPLACEMENT_CHARACTER);
                    }
                    assert(all =~= done + it.remaining());
                    assert(out@ =~= display_chunks(done));
                },
            }
        }
        out
    }

    /// The bytes quoted and escaped: in each valid part, every character
    /// whose standard debug escape is longer than one character is escaped,
    /// and each malformed byte shows as `\xHH`, one escape per byte.
    pub fn to_debug_string(&self) -> (r: String)
        ensures
            r@ == debug_of(self@),
    {
        let mut out = String::new();
        push_char(&mut out, '"');
        let mut it = self.utf8_chunks();
        let ghost all = it.remaining();
        let ghost mut done: Seq<(Seq<u8>, Seq<u8>)> = seq![];
        loop
            invariant
                all == done + it.remaining(),
                all == utf8_chunks_of(self@),
                out@ == seq!['"'] + debug_chunks(done),
            ensures
                out@ == seq!['"'] + debug_chunks(all),
            decreases it@.len(),
        {
            match it.next() {
                None => {
                    assert(it.remaining() =~= seq![]);
                    assert(all =~= done);
                    break;
                },
                Some(c) => {
                    let ghost before = done;
                    proof {
                        done = done.push(c@);
                        assert(done.drop_last() =~= before);
                    }
                    write_escaped_str(&mut out, c.valid);
                    write_hex_escapes(&mut out, c.broken);
                    assert(all =~= done + it.remaining());
                    assert(out@ =~= seq!['"'] + debug_chunks(done));
                },
            }
        }
        push_char(&mut out, '"');
        out
    }
}

/// Appends one `\xHH` escape for each byte of `bytes` to `out`.
fn write_hex_escapes(out: &mut String, bytes: &[u8])
    ensures
        final(out)@ == old(out)@ + hex_escapes(bytes@),
{
    let ghost start = out@;
    let mut i: usize = 0;
    while i < bytes.len()
        invariant
            i <= bytes@.len(),
            out@ == start + hex_escapes(bytes@.subrange(0, i as int)),
        decreases bytes@.len() - i,
    {
        let b = bytes[i];
        assert(bytes@.subrange(0, i + 1).drop_last() =~= bytes@.subrange(0, i as int));
        push_char(out, '\\');
        push_char(out, 'x');
        push_char(out, hex_char(b / 16));
        push_char(out, hex_char(b % 16));
        i = i + 1;
        assert(out@ =~= start + hex_escapes(bytes@.subrange(0, i as int)));
    }
    assert(bytes@.subrange(0, bytes@.len() as int) =~= bytes@);
}

} // verus!
