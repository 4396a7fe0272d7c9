use html_ui::asset::HtmlUiAsset;
use html_ui::ast::{HtmlNode, HtmlTag};
use html_ui::builder::{
	join_classes, plan_forest, plan_html_ui, BuildStep, HitTest, Layout, Placement, Template,
};
use html_ui::dimension::{Dimension, Number};
use html_ui::error::HtmlUiError;
use html_ui::parser::parse_htmlish;
use html_ui::reconciler::{AssetKey, Binding};

fn forest(s: &str) -> Vec<HtmlNode> {
	parse_htmlish(&s.to_owned()).unwrap()
}

fn px(s: &str) -> Dimension {
	Dimension::Pixels(Number::new(&s.chars().collect::<Vec<char>>()).unwrap())
}

fn plain(hit_test: HitTest) -> Template {
	Template {
		placement: Placement::Flow,
		layout: Layout::Plain,
		row_gap: None,
		column_gap: None,
		full_size: false,
		hit_test,
		interactive: false,
	}
}

fn root() -> BuildStep {
	BuildStep::Root { template: Template::of(HtmlTag::Ui, &Dimension::Auto) }
}

fn container(parent: usize, tag: HtmlTag) -> BuildStep {
	BuildStep::Container {
		parent,
		template: Template::of(tag, &Dimension::Auto),
		classes: None,
		name: None,
		autofocus: false,
	}
}

fn text(parent: usize, content: &str) -> BuildStep {
	BuildStep::Text { parent, content: content.to_owned() }
}

#[test]
fn template_of_each_tag() {
	let gap = px("3");
	assert_eq!(Template::of(HtmlTag::Ui, &gap), Template {
		placement: Placement::Absolute,
		layout: Layout::Column,
		row_gap: Some(px("3")),
		full_size: true,
		..plain(HitTest::Ignored)
	});
	assert_eq!(Template::of(HtmlTag::VBox, &gap), Template {
		layout: Layout::Column,
		row_gap: Some(px("3")),
		..plain(HitTest::Ignored)
	});
	assert_eq!(Template::of(HtmlTag::HBox, &gap), Template {
		layout: Layout::Row,
		column_gap: Some(px("3")),
		..plain(HitTest::Ignored)
	});
	assert_eq!(Template::of(HtmlTag::Node, &gap), plain(HitTest::Inherited));
	assert_eq!(Template::of(HtmlTag::Label, &gap), plain(HitTest::Ignored));
	assert_eq!(Template::of(HtmlTag::Button, &gap), Template {
		interactive: true,
		..plain(HitTest::Blocking)
	});
	assert_eq!(Template::of(HtmlTag::Spacer, &gap), Template {
		full_size: true,
		..plain(HitTest::Ignored)
	});
}

#[test]
fn classes_are_joined_with_single_spaces() {
	assert_eq!(join_classes(&vec![]), None);
	assert_eq!(join_classes(&vec!["a".to_owned()]), Some("a".to_owned()));
	assert_eq!(
		join_classes(&vec!["c".to_owned(), "d".to_owned(), "c".to_owned()]),
		Some("c d c".to_owned())
	);
}

#[test]
fn empty_forest_is_just_the_root() {
	assert_eq!(plan_forest(&vec![], &vec![]), vec![root()]);
}

#[test]
fn plan_goes_parent_first_in_document_order() {
	let steps = plan_forest(
		&forest("<vbox><label>one</label><hbox><spacer/>two</hbox></vbox>three<node/>"),
		&vec![],
	);
	assert_eq!(steps, vec![
		root(),
		container(0, HtmlTag::VBox),
		container(1, HtmlTag::Label),
		text(2, "one"),
		container(1, HtmlTag::HBox),
		container(4, HtmlTag::Spacer),
		text(4, "two"),
		text(0, "three"),
		container(0, HtmlTag::Node),
	]);
}

#[test]
fn plan_carries_the_attributes() {
	let steps = plan_forest(
		&forest("<button id=\"ok\" class=\"big  red\" gap=\"2px\" autofocus></button><hbox gap=\"2px\"/>"),
		&vec![],
	);
	assert_eq!(steps, vec![
		root(),
		BuildStep::Container {
			parent: 0,
			template: Template { interactive: true, ..plain(HitTest::Blocking) },
			classes: Some("big red".to_owned()),
			name: Some("ok".to_owned()),
			autofocus: true,
		},
		BuildStep::Container {
			parent: 0,
			template: Template {
				layout: Layout::Row,
				column_gap: Some(px("2")),
				..plain(HitTest::Ignored)
			},
			classes: None,
			name: None,
			autofocus: false,
		},
	]);
}

#[test]
fn callback_runs_after_the_children() {
	let registered = vec!["outer".to_owned(), "inner".to_owned()];
	let steps = plan_forest(
		&forest("<vbox callback=\"outer\"><button callback=\"inner\">go</button><spacer/></vbox>"),
		&registered,
	);
	assert_eq!(steps, vec![
		root(),
		container(0, HtmlTag::VBox),
		container(1, HtmlTag::Button),
		text(2, "go"),
		BuildStep::Invoke { node: 2, key: "inner".to_owned() },
		container(1, HtmlTag::Spacer),
		BuildStep::Invoke { node: 1, key: "outer".to_owned() },
	]);
}

#[test]
fn missing_callback_is_passed_over() {
	let registered = vec!["known".to_owned()];
	let steps = plan_forest(
		&forest("<button callback=\"unknown\"/><button callback=\"known\"/><button callback=\"Known\"/>"),
		&registered,
	);
	assert_eq!(steps, vec![
		root(),
		container(0, HtmlTag::Button),
		container(0, HtmlTag::Button),
		BuildStep::Invoke { node: 2, key: "known".to_owned() },
		container(0, HtmlTag::Button),
	]);
}

#[test]
fn plan_needs_a_configuration_and_the_content() {
	let source = AssetKey::Index(7);
	let binding = Binding { source, style: Some(AssetKey::Uuid(9)) };
	let markup = "<label>hi</label>".to_owned();
	let asset = HtmlUiAsset { ast: parse_htmlish(&markup).unwrap(), source: markup };
	assert_eq!(
		plan_html_ui(source, None, Some(&asset), &vec![]),
		Err(HtmlUiError::ResourceNotFound)
	);
	assert_eq!(plan_html_ui(source, None, None, &vec![]), Err(HtmlUiError::ResourceNotFound));
	assert_eq!(
		plan_html_ui(source, Some(&binding), None, &vec![]),
		Err(HtmlUiError::AssetNotFound)
	);
	let plan = plan_html_ui(source, Some(&binding), Some(&asset), &vec![]).unwrap();
	assert_eq!(plan.source, source);
	assert_eq!(plan.style, Some(AssetKey::Uuid(9)));
	assert_eq!(plan.steps, vec![root(), container(0, HtmlTag::Label), text(1, "hi")]);
}

#[test]
fn every_step_names_a_node_made_before_it() {
	let documents = [
		"",
		"text",
		"<ui><vbox><hbox><label>a</label>b</hbox>c</vbox><spacer/></ui>d<node callback=\"k\"/>",
		"<button callback=\"k\"><button callback=\"k\"><button callback=\"k\"/></button>x</button>",
	];
	for document in documents {
		let forest = forest(document);
		let steps = plan_forest(&forest, &vec!["k".to_owned()]);
		let mut made = 0;
		for (index, step) in steps.iter().enumerate() {
			match step {
				BuildStep::Root { .. } => {
					assert_eq!(index, 0);
					made += 1;
				},
				BuildStep::Container { parent, .. } | BuildStep::Text { parent, .. } => {
					assert!(*parent < made, "{:?}", document);
					made += 1;
				},
				BuildStep::Invoke { node, .. } => assert!(*node < made, "{:?}", document),
			}
		}
		assert_eq!(made, 1 + count(&forest));
	}
}

fn count(nodes: &[HtmlNode]) -> usize {
	nodes
		.iter()
		.map(|node| match node {
			HtmlNode::Element(element) => 1 + count(&element.children),
			HtmlNode::Text(_) => 1,
		})
		.sum()
}
