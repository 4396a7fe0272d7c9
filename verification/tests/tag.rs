use html_ui::ast::{HtmlElement, HtmlNode, HtmlTag};
use html_ui::dimension::Dimension;
use html_ui::error::HtmlUiError;
use html_ui::tag::{parse_tag, split_quoted_whitespace};

fn chars(s: &str) -> Vec<char> {
	s.chars().collect()
}

fn split(s: &str) -> Vec<String> {
	let text = chars(s);
	split_quoted_whitespace(&text).into_iter().map(|part| part.iter().collect()).collect()
}

fn header(s: &str) -> (HtmlElement, bool) {
	parse_tag(&chars(s)).unwrap()
}

fn header_error(s: &str) -> String {
	match parse_tag(&chars(s)) {
		Err(HtmlUiError::ParseError(message)) => message,
		other => panic!("expected a parse error, got {:?}", other),
	}
}

const ALL_TAGS: [(HtmlTag, &str); 7] = [
	(HtmlTag::Ui, "ui"),
	(HtmlTag::VBox, "vbox"),
	(HtmlTag::HBox, "hbox"),
	(HtmlTag::Node, "node"),
	(HtmlTag::Label, "label"),
	(HtmlTag::Button, "button"),
	(HtmlTag::Spacer, "spacer"),
];

#[test]
fn keywords_are_the_documented_ones() {
	for (tag, keyword) in ALL_TAGS {
		assert_eq!(tag.as_str(), keyword);
		assert_eq!(HtmlTag::from_str(keyword), Ok(tag));
	}
}

#[test]
fn keyword_round_trip() {
	for (tag, _) in ALL_TAGS {
		assert_eq!(HtmlTag::from_str(tag.as_str()), Ok(tag));
	}
}

#[test]
fn unknown_keyword_is_quoted_in_the_error() {
	assert_eq!(
		HtmlTag::from_str("div"),
		Err(HtmlUiError::ParseError("unknown tag `div`".to_owned()))
	);
	assert_eq!(HtmlTag::from_str(""), Err(HtmlUiError::ParseError("unknown tag ``".to_owned())));
	assert_eq!(
		HtmlTag::from_str("Ui"),
		Err(HtmlUiError::ParseError("unknown tag `Ui`".to_owned()))
	);
	assert_eq!(
		HtmlTag::from_str("ui "),
		Err(HtmlUiError::ParseError("unknown tag `ui `".to_owned()))
	);
}

#[test]
fn split_outside_quotes_only() {
	assert_eq!(split("button id=\"b\" class=\"c d\" autofocus"), vec![
		"button",
		"id=\"b\"",
		"class=\"c d\"",
		"autofocus"
	]);
}

#[test]
fn split_drops_runs_of_white_space() {
	assert_eq!(split("  a \t\n b  "), vec!["a", "b"]);
	assert_eq!(split(""), Vec::<String>::new());
	assert_eq!(split(" \t "), Vec::<String>::new());
	assert_eq!(split("a\u{a0}b"), vec!["a", "b"]);
}

#[test]
fn split_keeps_an_open_quote_to_the_end() {
	assert_eq!(split("a \"b c"), vec!["a", "\"b c"]);
	assert_eq!(split("a\"b c\"d e"), vec!["a\"b c\"d", "e"]);
	assert_eq!(split("\"\" \" \""), vec!["\"\"", "\" \""]);
}

#[test]
fn bare_tag() {
	let (element, self_closing) = header("vbox");
	assert!(!self_closing);
	assert_eq!(element, HtmlElement {
		tag: HtmlTag::VBox,
		name_id: None,
		classes: vec![],
		gap: Dimension::Auto,
		autofocus: false,
		callback: None,
		children: vec![],
	});
}

#[test]
fn every_attribute() {
	let (element, self_closing) =
		header(" button id=\"ok\" class=\"a b\" gap=\"auto\" autofocus callback=\"on_ok\" / ");
	assert!(self_closing);
	assert_eq!(element.tag, HtmlTag::Button);
	assert_eq!(element.name_id, Some("ok".to_owned()));
	assert_eq!(element.classes, vec!["a", "b"]);
	assert_eq!(element.gap, Dimension::Auto);
	assert!(element.autofocus);
	assert_eq!(element.callback, Some("on_ok".to_owned()));
	assert_eq!(element.children, Vec::<HtmlNode>::new());
}

#[test]
fn last_id_wins() {
	let (element, _) = header("node id=\"a\" id=\"b\" callback=\"x\" callback=\"y\"");
	assert_eq!(element.name_id, Some("b".to_owned()));
	assert_eq!(element.callback, Some("y".to_owned()));
}

#[test]
fn classes_add_up_and_keep_duplicates() {
	let (element, _) = header("node class=\"b a\" class=\"\" class=\" a  c \"");
	assert_eq!(element.classes, vec!["b", "a", "a", "c"]);
}

#[test]
fn gap_is_read_as_a_dimension() {
	let (element, _) = header("hbox gap=\"50%\"");
	match element.gap {
		Dimension::Percent(number) => assert_eq!(number.as_str(), "50"),
		other => panic!("expected percent, got {:?}", other),
	}
	assert_eq!(header_error("hbox gap=\"5 0%\""), "invalid gap tag `5 0%`: invalid float literal");
	assert_eq!(
		header_error("hbox gap=\"\""),
		"invalid gap tag ``: cannot parse float from empty string"
	);
}

#[test]
fn later_gap_replaces_earlier_and_first_bad_gap_fails() {
	let (element, _) = header("hbox gap=\"1px\" gap=\"2vh\"");
	assert!(matches!(element.gap, Dimension::ViewportHeight(_)));
	assert_eq!(
		header_error("hbox gap=\"x\" gap=\"y\""),
		"invalid gap tag `x`: invalid float literal"
	);
}

#[test]
fn unknown_attributes_are_passed_over() {
	let (element, _) = header("label width=\"3\" ID=\"x\" autofocus=\"yes\" id=x class");
	assert_eq!(element.name_id, None);
	assert!(!element.autofocus);
	assert!(element.classes.is_empty());
}

#[test]
fn value_loses_the_quotes_at_its_end() {
	let (element, _) = header("label id=\"a\"\"\" callback=\"b");
	assert_eq!(element.name_id, Some("a".to_owned()));
	assert_eq!(element.callback, Some("b".to_owned()));
}

#[test]
fn all_slashes_at_the_end_are_dropped() {
	let (element, self_closing) = header("spacer //");
	assert!(self_closing);
	assert_eq!(element.tag, HtmlTag::Spacer);
	let (_, self_closing) = header("spacer/ ");
	assert!(self_closing);
	let (_, self_closing) = header("spacer");
	assert!(!self_closing);
}

#[test]
fn header_errors() {
	assert_eq!(header_error(""), "empty tag");
	assert_eq!(header_error(" / "), "empty tag");
	assert_eq!(header_error("div id=\"x\""), "unknown tag `div`");
	assert_eq!(header_error("div gap=\"x\""), "unknown tag `div`");
	assert_eq!(header_error("id=\"x\" vbox"), "unknown tag `id=\"x\"`");
}

#[test]
fn nodes_clone_deeply() {
	let (mut element, _) = header("vbox id=\"v\" class=\"a b\" gap=\"1.5px\" callback=\"c\"");
	element.children.push(HtmlNode::Text("t".to_owned()));
	element.children.push(HtmlNode::Element(header("spacer").0));
	let node = HtmlNode::Element(element);
	assert_eq!(node.clone(), node);
}
