use raw_string::RawStr;

#[test]
fn str_test_display() {
	let a = RawStr::from_str("1\" μs / °C");
	assert_eq!(a.to_display_string(), "1\" μs / °C");

	let b = RawStr::from_bytes(&b"1 \xFF \xce\xbcs / \xc2\xb0C"[..]);
	assert_eq!(b.to_display_string(), "1 \u{FFFD} μs / °C");
}

#[test]
fn str_test_debug() {
	let a = RawStr::from_str("1\" μs / °C");
	assert_eq!(a.to_debug_string(), "\"1\\\" μs / °C\"");

	let b = RawStr::from_bytes(&b"1 \xFF \xce\xbcs / \xc2\xb0C"[..]);
	assert_eq!(b.to_debug_string(), "\"1 \\xff μs / °C\"");
}

#[test]
fn mod_test_display() {
	let a = RawStr::from_str("1\" μs / °C");
	assert_eq!(a.to_display_string(), "1\" μs / °C");

	let b = RawStr::from_bytes(&b"1 \xFF \xce\xbcs / \xc2\xb0C"[..]);
	assert_eq!(b.to_display_string(), "1 \u{FFFD} μs / °C");
}

#[test]
fn mod_test_debug() {
	let a = RawStr::from_str("1\" μs / °C");
	assert_eq!(a.to_debug_string(), "\"1\\\" μs / °C\"");

	let b = RawStr::from_bytes(&b"1 \xFF \xce\xbcs / \xc2\xb0C"[..]);
	assert_eq!(b.to_debug_string(), "\"1 \\xff μs / °C\"");
}

#[test]
fn display_collapses_one_run_to_one_replacement() {
	// 0xF0 0x9F 0x98 begins a four-byte character that never ends: one run.
	let s = RawStr::from_bytes(&b"a\xF0\x9F\x98b"[..]);
	assert_eq!(s.to_display_string(), "a\u{FFFD}b");
	let d = RawStr::from_bytes(&b"1 \xFF \xce\xbcs"[..]);
	assert_eq!(d.to_display_string(), "1 \u{FFFD} \u{3bc}s");
}

#[test]
fn display_gives_one_replacement_per_run() {
	// Two stray bytes are two malformed runs.
	let s = RawStr::from_bytes(&b"\xFF\xFE"[..]);
	assert_eq!(s.to_display_string(), "\u{FFFD}\u{FFFD}");
}

#[test]
fn display_of_truncated_end() {
	let s = RawStr::from_bytes(&b"ab\xE2\x82"[..]);
	assert_eq!(s.to_display_string(), "ab\u{FFFD}");
}

#[test]
fn display_of_empty_and_valid() {
	assert_eq!(RawStr::from_bytes(&[]).to_display_string(), "");
	assert_eq!(RawStr::from_str("héllo").to_display_string(), "héllo");
}

#[test]
fn debug_escapes_each_malformed_byte() {
	let s = RawStr::from_bytes(&b"a\xF0\x9F\x98b"[..]);
	assert_eq!(s.to_debug_string(), "\"a\\xf0\\x9f\\x98b\"");
	let d = RawStr::from_bytes(&b"1 \xff \xce\xbcs"[..]);
	assert_eq!(d.to_debug_string(), "\"1 \\xff \u{3bc}s\"");
}

#[test]
fn debug_escapes_control_quote_and_backslash() {
	let s = RawStr::from_str("a\tb\n\\\"'\u{0}");
	assert_eq!(s.to_debug_string(), "\"a\\tb\\n\\\\\\\"\\'\\0\"");
	assert_eq!(RawStr::from_bytes(&[]).to_debug_string(), "\"\"");
}

#[test]
fn debug_hex_digits() {
	let s = RawStr::from_bytes(&[0x80, 0xAB, 0xC0]);
	assert_eq!(s.to_debug_string(), "\"\\x80\\xab\\xc0\"");
}

#[test]
fn write_escaped_str_appends() {
	let mut out = String::from(">");
	raw_string::render::write_escaped_str(&mut out, "x\"y");
	assert_eq!(out, ">x\\\"y");
}

#[test]
fn debug_piece_rule() {
	let mut out = String::new();
	raw_string::render::push_debug_piece(&mut out, 'a', "a");
	raw_string::render::push_debug_piece(&mut out, '\n', "\\n");
	// A one-character escape is never used: the character itself is shown.
	raw_string::render::push_debug_piece(&mut out, 'x', "y");
	raw_string::render::push_debug_piece(&mut out, 'μ', "μ");
	assert_eq!(out, "a\\nxμ");
}
