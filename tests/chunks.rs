use raw_string::{RawStr, Utf8Chunk};

fn collect(bytes: &[u8]) -> Vec<(String, Vec<u8>)> {
	let mut it = RawStr::from_bytes(bytes).utf8_chunks();
	let mut out = Vec::new();
	while let Some(Utf8Chunk { valid, broken }) = it.next() {
		out.push((valid.to_string(), broken.to_vec()));
	}
	out
}

#[test]
fn chunks_of_empty_input() {
	assert!(collect(b"").is_empty());
}

#[test]
fn chunks_of_valid_input() {
	assert_eq!(collect("aμb".as_bytes()), vec![("aμb".to_string(), vec![])]);
}

#[test]
fn chunks_split_at_malformed_runs() {
	let got = collect(b"ab\xFFcd\xE2\x82xy");
	assert_eq!(
		got,
		vec![
			("ab".to_string(), vec![0xFF]),
			("cd".to_string(), vec![0xE2, 0x82]),
			("xy".to_string(), vec![]),
		]
	);
}

#[test]
fn chunks_end_mid_character() {
	let got = collect(b"ok\xF0\x9F\x98");
	assert_eq!(got, vec![("ok".to_string(), vec![0xF0, 0x9F, 0x98])]);
}

#[test]
fn chunks_rebuild_the_bytes() {
	let input: &[u8] = b"\xC0\x80a\xED\xA0\x80\xF4\x90\x80\x80z\xE0\x80";
	let got = collect(input);
	let mut joined = Vec::new();
	for (v, b) in &got {
		joined.extend_from_slice(v.as_bytes());
		joined.extend_from_slice(b);
	}
	assert_eq!(joined, input.to_vec());
	// Overlong, surrogate and out-of-range leads are each one-byte runs.
	assert_eq!(got[0], (String::new(), vec![0xC0]));
	assert_eq!(got[1], (String::new(), vec![0x80]));
	assert_eq!(got[2], ("a".to_string(), vec![0xED]));
}

#[test]
fn chunk_iterator_stays_done() {
	let mut it = RawStr::from_bytes(b"x").utf8_chunks();
	assert!(it.next().is_some());
	assert!(it.next().is_none());
	assert!(it.next().is_none());
}
