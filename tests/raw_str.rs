use raw_string::{ByteRange, RawStr};
use std::cmp::Ordering;

#[test]
fn from_bytes_keeps_bytes() {
	let b: &[u8] = b"\x00\xFFabc";
	let s = RawStr::from_bytes(b);
	assert_eq!(s.as_bytes(), b);
	assert_eq!(s.as_bytes().as_ptr(), b.as_ptr());
	assert_eq!(s.len(), 5);
	assert!(!s.is_empty());
	assert!(RawStr::from_bytes(&[]).is_empty());
}

#[test]
fn from_str_round_trip() {
	let text = "grüße, 世界";
	let s = RawStr::from_str(text);
	assert_eq!(s.as_bytes(), text.as_bytes());
	assert_eq!(s.to_str(), Ok(text));
}

#[test]
fn to_str_reports_bad_byte() {
	let s = RawStr::from_bytes(b"ab\xFFcd");
	let e = s.to_str().unwrap_err();
	assert_eq!(e.valid_up_to(), 2);
	assert_eq!(e.error_len(), Some(1));
}

#[test]
fn to_str_reports_bad_sequence_length() {
	// E2 82 followed by a non-continuation byte: a two-byte malformed sequence.
	let s = RawStr::from_bytes(b"x\xE2\x82y");
	let e = s.to_str().unwrap_err();
	assert_eq!(e.valid_up_to(), 1);
	assert_eq!(e.error_len(), Some(2));
}

#[test]
fn to_str_reports_truncated_end() {
	let s = RawStr::from_bytes(b"xy\xE2\x82");
	let e = s.to_str().unwrap_err();
	assert_eq!(e.valid_up_to(), 2);
	assert_eq!(e.error_len(), None);
}

#[test]
fn first_last_and_splits() {
	let s = RawStr::from_str("abc");
	assert_eq!(s.first(), Some(b'a'));
	assert_eq!(s.last(), Some(b'c'));
	let (f, rest) = s.split_first().unwrap();
	assert_eq!(f, b'a');
	assert_eq!(rest.as_bytes(), b"bc");
	let (l, rest) = s.split_last().unwrap();
	assert_eq!(l, b'c');
	assert_eq!(rest.as_bytes(), b"ab");
	let (x, y) = s.split_at(1);
	assert_eq!(x.as_bytes(), b"a");
	assert_eq!(y.as_bytes(), b"bc");
	let e = RawStr::from_bytes(&[]);
	assert_eq!(e.first(), None);
	assert_eq!(e.last(), None);
	assert!(e.split_first().is_none());
	assert!(e.split_last().is_none());
}

#[test]
fn searching_bytes() {
	let s = RawStr::from_bytes(b"hello\xFF");
	assert!(s.contains_byte(0xFF));
	assert!(!s.contains_byte(b'z'));
	assert!(s.contains(&b'e'));
	assert!(s.starts_with(RawStr::from_str("he")));
	assert!(!s.starts_with(RawStr::from_str("hello world")));
	assert!(s.ends_with(RawStr::from_bytes(b"o\xFF")));
	assert!(!s.ends_with(RawStr::from_str("o")));
	assert!(s.starts_with(RawStr::from_bytes(&[])));
	assert_eq!(s.bytes(), b"hello\xFF".to_vec());
}

#[test]
fn ascii_checks() {
	assert!(RawStr::from_str("Hi!").is_ascii());
	assert!(!RawStr::from_bytes(b"Hi\x80").is_ascii());
	assert!(RawStr::from_str("HeLLo").eq_ignore_ascii_case(RawStr::from_str("hello")));
	assert!(!RawStr::from_str("hello").eq_ignore_ascii_case(RawStr::from_str("hellp")));
	assert!(!RawStr::from_bytes(b"\xC4").eq_ignore_ascii_case(RawStr::from_bytes(b"\xE4")));
}

#[test]
fn index_by_position() {
	let s = RawStr::from_str("hello world");
	assert_eq!(s.get(5usize), Some(b' '));
	assert_eq!(s.index(5usize), b' ');
	assert_eq!(s.get(11usize), None);
}

#[test]
fn index_by_range() {
	let s = RawStr::from_str("hello world");
	let hello = s.index(0..5);
	assert_eq!(hello, "hello");
	assert_eq!(s.get(0..5), Some(hello));
	assert_eq!(s.get(6..12), None);
	assert_eq!(s.get(ByteRange::RangeFrom(6)).unwrap(), "world");
	assert_eq!(s.get(ByteRange::RangeTo(5)).unwrap(), "hello");
	assert_eq!(s.get(ByteRange::RangeFull).unwrap(), "hello world");
	assert_eq!(s.get(ByteRange::RangeInclusive(0, 4)).unwrap(), "hello");
	assert_eq!(s.get(ByteRange::RangeToInclusive(4)).unwrap(), "hello");
	assert_eq!(s.get(ByteRange::RangeInclusive(0, 11)), None);
	assert_eq!(s.get(ByteRange::Range(3, 2)), None);
	assert_eq!(s.index(ByteRange::Range(6, 11)), "world");
	// The sub-view borrows the same bytes.
	assert_eq!(s.index(ByteRange::RangeFrom(6)).as_bytes().as_ptr(), s.as_bytes()[6..].as_ptr());
}

#[test]
fn ordering_is_by_unsigned_bytes() {
	let a = RawStr::from_bytes(b"abc");
	let b = RawStr::from_bytes(b"abd");
	let c = RawStr::from_bytes(b"ab");
	let hi = RawStr::from_bytes(b"\xFF");
	assert!(a < b);
	assert!(c < a);
	assert!(a < hi);
	assert_eq!(a.partial_cmp(&a), Some(Ordering::Equal));
	assert_eq!(b.partial_cmp(&a), Some(Ordering::Greater));
	assert!(a == RawStr::from_str("abc"));
	assert!(a != b);
}

#[test]
fn comparing_with_strings_and_bytes() {
	let a = RawStr::from_str("abc");
	assert!(a == "abc");
	assert!(a < "abd");
	assert!(a > "ab");
	let bytes: &[u8] = b"abc";
	assert!(a == bytes);
	let more: &[u8] = b"abcd";
	assert_eq!(a.partial_cmp(&more), Some(Ordering::Less));
}

#[test]
fn unchecked_access_within_bounds() {
	let s = RawStr::from_str("hello");
	assert_eq!(s.get_unchecked(1usize), b'e');
	assert_eq!(s.get_unchecked(1..3), "el");
	assert_eq!(s.slice_unchecked(2, 5), "llo");
	assert_eq!(s.slice(0, 0), "");
}

#[test]
fn default_view_is_empty() {
	let d: RawStr = Default::default();
	assert!(d.is_empty());
}

#[test]
fn chunk_size_hint() {
	let mut it = RawStr::from_bytes(b"a\xFFb").utf8_chunks();
	assert_eq!(it.size_hint(), (1, None));
	while it.next().is_some() {}
	assert_eq!(it.size_hint(), (0, Some(0)));
}

#[test]
fn iterating_bytes() {
	let s = RawStr::from_bytes(b"a\xFFz");
	let got: Vec<u8> = s.iter().copied().collect();
	assert_eq!(got, vec![b'a', 0xFF, b'z']);
	assert_eq!(RawStr::from_bytes(&[]).iter().count(), 0);
}
