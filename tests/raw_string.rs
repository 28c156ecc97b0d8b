use raw_string::{ByteRange, RawStr, RawString};

fn bytes_of(s: &RawString) -> Vec<u8> {
	s.as_raw_str().bytes()
}

#[test]
fn new_and_with_capacity_are_empty() {
	assert!(RawString::new().is_empty());
	let s = RawString::with_capacity(16);
	assert_eq!(s.len(), 0);
	assert!(s.capacity() >= s.len());
}

#[test]
fn from_bytes_and_string() {
	let s = RawString::from_bytes(vec![1, 2, 0xFF]);
	assert_eq!(s.into_bytes(), vec![1, 2, 0xFF]);
	let t = RawString::from_string(String::from("μs"));
	assert_eq!(bytes_of(&t), vec![0xCE, 0xBC, b's']);
	let u = RawString::from_raw_str(RawStr::from_str("ab"));
	assert_eq!(bytes_of(&u), b"ab".to_vec());
}

#[test]
fn push_insert_remove() {
	let mut s = RawString::new();
	s.push(b'a');
	s.push_str(RawStr::from_str("cd"));
	s.insert(1, b'b');
	assert_eq!(bytes_of(&s), b"abcd".to_vec());
	s.insert_str(2, RawStr::from_bytes(b"\xFF\xFE"));
	assert_eq!(bytes_of(&s), b"ab\xFF\xFEcd".to_vec());
	assert_eq!(s.remove(2), 0xFF);
	assert_eq!(s.pop(), Some(b'd'));
	assert_eq!(bytes_of(&s), b"ab\xFEc".to_vec());
}

#[test]
fn truncate_and_clear() {
	let mut s = RawString::from_bytes(b"abcdef".to_vec());
	s.truncate(10);
	assert_eq!(s.len(), 6);
	s.truncate(3);
	assert_eq!(bytes_of(&s), b"abc".to_vec());
	s.clear();
	assert!(s.is_empty());
	assert_eq!(s.pop(), None);
}

#[test]
fn retain_keeps_order() {
	let mut s = RawString::from_bytes(b"a1b2c3".to_vec());
	s.retain(|b| b.is_ascii_alphabetic());
	assert_eq!(bytes_of(&s), b"abc".to_vec());
}

#[test]
fn split_off_then_rejoin() {
	let mut s = RawString::from_bytes(b"hello world".to_vec());
	let tail = s.split_off(5);
	assert_eq!(bytes_of(&s), b"hello".to_vec());
	assert_eq!(bytes_of(&tail), b" world".to_vec());
	s.push_str(tail.as_raw_str());
	assert_eq!(bytes_of(&s), b"hello world".to_vec());
	let mut e = RawString::from_bytes(b"ab".to_vec());
	assert!(e.split_off(2).is_empty());
}

#[test]
fn drain_removes_the_range() {
	let mut s = RawString::from_bytes(b"hello world".to_vec());
	let removed = s.drain(ByteRange::Range(2, 7));
	assert_eq!(removed, b"llo w".to_vec());
	assert_eq!(bytes_of(&s), b"heorld".to_vec());
	let mut t = RawString::from_bytes(b"abc".to_vec());
	t.drain(ByteRange::RangeFull);
	assert!(t.is_empty());
}

#[test]
fn replace_range_changes_length() {
	let mut s = RawString::from_bytes(b"hello world".to_vec());
	s.replace_range(ByteRange::RangeTo(5), RawStr::from_str("bye"));
	assert_eq!(bytes_of(&s), b"bye world".to_vec());
	s.replace_range(ByteRange::RangeInclusive(3, 3), RawStr::from_str(", "));
	assert_eq!(bytes_of(&s), b"bye, world".to_vec());
}

#[test]
fn to_string_valid_and_invalid() {
	let ok = RawString::from_bytes("μs".as_bytes().to_vec());
	assert_eq!(ok.to_string().unwrap(), "μs");
	let bad = RawString::from_bytes(b"a\xFFb".to_vec());
	let e = bad.to_string().unwrap_err();
	assert_eq!(e.as_bytes(), b"a\xFFb");
	assert_eq!(e.utf8_error().valid_up_to(), 1);
	assert_eq!(e.utf8_error().error_len(), Some(1));
	assert_eq!(e.into_bytes(), b"a\xFFb".to_vec());
}

#[test]
fn ascii_case_in_place() {
	let mut s = RawString::from_bytes(b"Hello, \xC4 World".to_vec());
	s.make_ascii_uppercase();
	assert_eq!(bytes_of(&s), b"HELLO, \xC4 WORLD".to_vec());
	s.make_ascii_lowercase();
	assert_eq!(bytes_of(&s), b"hello, \xC4 world".to_vec());
}

#[test]
fn capacity_changes_keep_contents() {
	let mut s = RawString::from_bytes(b"abc".to_vec());
	s.reserve(100);
	s.reserve_exact(50);
	s.shrink_to_fit();
	assert_eq!(bytes_of(&s), b"abc".to_vec());
	assert!(s.capacity() >= 3);
}

#[test]
fn as_mut_bytes_changes_contents() {
	let mut s = RawString::from_bytes(b"abc".to_vec());
	s.as_mut_bytes().push(b'd');
	assert_eq!(bytes_of(&s), b"abcd".to_vec());
}

#[test]
fn buffers_compare_as_bytes() {
	let a = RawString::from_bytes(b"abc".to_vec());
	let b = RawString::from_bytes(b"abd".to_vec());
	assert!(a < b);
	assert!(a == a.clone());
	assert!(a == RawStr::from_str("abc"));
	assert!(a == "abc");
	assert!(a < "b");
	assert!(RawString::from_bytes(vec![0xFF]) > a);
	let d: RawString = Default::default();
	assert!(d.is_empty());
}
