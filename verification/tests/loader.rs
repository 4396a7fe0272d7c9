use html_ui::asset::HtmlUiAsset;
use html_ui::ast::{HtmlElement, HtmlNode, HtmlTag};
use html_ui::dimension::Dimension;
use html_ui::error::HtmlUiError;
use html_ui::loader::HtmlUiLoader;

#[test]
fn loads_valid_markup() {
	let asset = HtmlUiLoader.load("<label>\u{e9}t\u{e9}</label>".as_bytes().to_vec()).unwrap();
	assert_eq!(asset, HtmlUiAsset {
		source: "<label>\u{e9}t\u{e9}</label>".to_owned(),
		ast: vec![HtmlNode::Element(HtmlElement {
			tag: HtmlTag::Label,
			name_id: None,
			classes: vec![],
			gap: Dimension::Auto,
			autofocus: false,
			callback: None,
			children: vec![HtmlNode::Text("\u{e9}t\u{e9}".to_owned())],
		})],
	});
}

#[test]
fn loads_the_empty_file() {
	assert_eq!(HtmlUiLoader.load(vec![]), Ok(HtmlUiAsset { source: String::new(), ast: vec![] }));
}

#[test]
fn refuses_bytes_that_are_not_utf8() {
	assert_eq!(HtmlUiLoader.load(vec![b'<', 0xff, b'>']), Err(HtmlUiError::InvalidUtf8));
	assert_eq!(HtmlUiLoader.load(vec![0xc3]), Err(HtmlUiError::InvalidUtf8));
	assert_eq!(HtmlUiLoader.load(vec![0xed, 0xa0, 0x80]), Err(HtmlUiError::InvalidUtf8));
}

#[test]
fn passes_the_parse_error_on() {
	assert_eq!(
		HtmlUiLoader.load(b"<vbox>".to_vec()),
		Err(HtmlUiError::ParseError("unclosed tag".to_owned()))
	);
}

#[test]
fn encoding_is_checked_before_the_markup() {
	assert_eq!(HtmlUiLoader.load(b"<vbox>\xff".to_vec()), Err(HtmlUiError::InvalidUtf8));
}

#[test]
fn extension_is_html() {
	assert_eq!(HtmlUiLoader.extensions(), &["html"]);
}

#[test]
fn error_messages() {
	assert_eq!(HtmlUiError::InvalidUtf8.message(), "HTML source is not valid UTF-8");
	assert_eq!(
		HtmlUiError::ParseError("unclosed tag".to_owned()).message(),
		"parse error: unclosed tag"
	);
	assert_eq!(HtmlUiError::IoError("broken pipe".to_owned()).message(), "io error: broken pipe");
	assert_eq!(HtmlUiError::ResourceNotFound.message(), "resource not found");
	assert_eq!(HtmlUiError::AssetNotFound.message(), "asset not found");
}

#[test]
fn asset_clones() {
	let asset = HtmlUiLoader.load(b"<vbox><spacer/>x</vbox>".to_vec()).unwrap();
	assert_eq!(asset.clone(), asset);
}
