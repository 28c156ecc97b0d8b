use raw_string::{RawStr, RawString};

#[test]
fn view_writes_reach_the_bytes() {
	let mut v = b"abc".to_vec();
	match RawStr::from_bytes_mut(&mut v).first_mut() {
		Some(x) => *x = b'X',
		None => panic!("no first byte"),
	}
	assert_eq!(v, b"Xbc".to_vec());
	*RawStr::from_mut_bytes(&mut v).last_mut().unwrap() = b'Z';
	assert_eq!(v, b"XbZ".to_vec());
	assert!(RawStr::from_bytes_mut(&mut []).first_mut().is_none());
}

#[test]
fn split_mutable_views() {
	let mut v = b"hello world".to_vec();
	let (a, b) = RawStr::from_bytes_mut(&mut v).split_at_mut(5);
	a.make_ascii_uppercase();
	*b.get_mut(1).unwrap() = b'W';
	assert_eq!(v, b"HELLO World".to_vec());
	let (first, rest) = RawStr::from_bytes_mut(&mut v).split_first_mut().unwrap();
	*first = b'J';
	rest.make_ascii_lowercase();
	assert_eq!(v, b"Jello world".to_vec());
	let (last, rest) = RawStr::from_bytes_mut(&mut v).split_last_mut().unwrap();
	*last = b'!';
	assert_eq!(rest.as_bytes_mut(), b"Jello worl");
	assert_eq!(v, b"Jello worl!".to_vec());
	assert!(RawStr::from_bytes_mut(&mut v).get_mut(11).is_none());
}

#[test]
fn buffer_mutable_view() {
	let mut s = RawString::from_bytes(b"ab\xFFcd".to_vec());
	s.as_raw_str_mut().make_ascii_uppercase();
	assert_eq!(s.as_raw_str().bytes(), b"AB\xFFCD".to_vec());
	s.as_raw_str_mut().as_mut_bytes()[0] = b'z';
	assert_eq!(s.as_raw_str().bytes(), b"zB\xFFCD".to_vec());
}

#[test]
fn mutable_range_views() {
	let mut v = b"abcdef".to_vec();
	RawStr::from_bytes_mut(&mut v).index_mut(raw_string::ByteRange::Range(1, 3)).make_ascii_uppercase();
	assert_eq!(v, b"aBCdef".to_vec());
	RawStr::from_bytes_mut(&mut v).slice_mut_unchecked(4, 6).make_ascii_uppercase();
	assert_eq!(v, b"aBCdEF".to_vec());
}
