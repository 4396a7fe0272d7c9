use html_ui::text::{
	chars_of, equals, is_whitespace, push_chars, push_words, string_of, strip_prefix,
	strip_suffix, trim, trim_end_matches,
};

fn chars(s: &str) -> Vec<char> {
	s.chars().collect()
}

#[test]
fn white_space_is_that_of_unicode() {
	for code in 0..=0x10FFFFu32 {
		if let Some(c) = char::from_u32(code) {
			assert_eq!(is_whitespace(c), c.is_whitespace(), "U+{:04X}", code);
		}
	}
}

#[test]
fn chars_of_and_string_of_are_inverse() {
	let text = "a\u{e9}\u{1f600} z";
	assert_eq!(chars_of(text), chars(text));
	assert_eq!(string_of(&chars_of(text)), text);
	assert_eq!(string_of(&[]), "");
}

#[test]
fn push_chars_appends() {
	let mut out = "ab".to_owned();
	push_chars(&mut out, &chars("cd"));
	assert_eq!(out, "abcd");
	push_chars(&mut out, &[]);
	assert_eq!(out, "abcd");
}

#[test]
fn equals_compares_whole_sequences() {
	assert!(equals(&chars("auto"), "auto"));
	assert!(!equals(&chars("auto"), "aut"));
	assert!(!equals(&chars("aut"), "auto"));
	assert!(!equals(&chars("autO"), "auto"));
	assert!(equals(&[], ""));
}

#[test]
fn strip_prefix_and_suffix() {
	assert_eq!(strip_prefix(&chars("id=\"x\""), "id=\""), Some(&chars("x\"")[..]));
	assert_eq!(strip_prefix(&chars("id=x"), "id=\""), None);
	assert_eq!(strip_prefix(&chars("ab"), ""), Some(&chars("ab")[..]));
	assert_eq!(strip_suffix(&chars("10px"), "px"), Some(&chars("10")[..]));
	assert_eq!(strip_suffix(&chars("px"), "px"), Some(&[][..]));
	assert_eq!(strip_suffix(&chars("x"), "px"), None);
	assert_eq!(strip_suffix(&chars("10pt"), "px"), None);
}

#[test]
fn trim_drops_white_space_at_both_ends_only() {
	assert_eq!(trim(&chars("  a b \t\n")), &chars("a b")[..]);
	assert_eq!(trim(&chars("\u{a0}a\u{2003}")), &chars("a")[..]);
	assert_eq!(trim(&chars("a")), &chars("a")[..]);
	assert_eq!(trim(&chars(" \t ")), &[][..]);
	assert_eq!(trim(&[]), &[][..]);
	assert_eq!(trim(&chars("\u{200b}a\u{200b}")), &chars("\u{200b}a\u{200b}")[..]);
}

#[test]
fn trim_twice_is_trim_once() {
	for text in ["", " ", " a ", "a  b", "\t\n x y \r\n"] {
		let once = trim(&chars(text)).to_vec();
		assert_eq!(trim(&once), &once[..]);
		assert_eq!(string_of(&once), text.trim());
	}
}

#[test]
fn trim_end_matches_drops_the_whole_run() {
	assert_eq!(trim_end_matches(&chars("spacer //"), '/'), &chars("spacer ")[..]);
	assert_eq!(trim_end_matches(&chars("a\"\""), '"'), &chars("a")[..]);
	assert_eq!(trim_end_matches(&chars("/a"), '/'), &chars("/a")[..]);
	assert_eq!(trim_end_matches(&chars("///"), '/'), &[][..]);
}

#[test]
fn words_are_runs_without_white_space() {
	let mut out = vec!["kept".to_owned()];
	push_words(&mut out, &chars("  c  d\te\n"));
	assert_eq!(out, vec!["kept", "c", "d", "e"]);
	push_words(&mut out, &chars("   "));
	push_words(&mut out, &[]);
	assert_eq!(out.len(), 4);
	push_words(&mut out, &chars("c"));
	assert_eq!(out, vec!["kept", "c", "d", "e", "c"]);
}

#[test]
fn words_agree_with_split_whitespace() {
	for text in ["", "a", " a", "a ", "a b", "  a \u{3000} b\u{a0}c  ", "\t\n"] {
		let mut out = Vec::new();
		push_words(&mut out, &chars(text));
		let expected: Vec<String> = text.split_whitespace().map(str::to_owned).collect();
		assert_eq!(out, expected);
	}
}
