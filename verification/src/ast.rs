//! The document as a tree: tags, elements and text, and the values of mathematics
//! that the contracts speak of.

use crate::dimension::{Dimension, DimensionModel};
use crate::error::{ErrorModel, HtmlUiError};
use crate::text::{chars_of, equals};
use vstd::prelude::*;
use vstd::string::StringExecFns;

verus! {

/// The kinds of element.
#[derive(Debug, Clone, Copy, PartialEq, Eq, Structural)]
pub enum HtmlTag {
    Ui,
    VBox,
    HBox,
    Node,
    Label,
    Button,
    Spacer,
}

/// The tag that a keyword names, if it names one.
pub open spec fn tag_named(keyword: Seq<char>) -> Option<HtmlTag> {
    if keyword == "ui"@ {
        Some(HtmlTag::Ui)
    } else if keyword == "vbox"@ {
        Some(HtmlTag::VBox)
    } else if keyword == "hbox"@ {
        Some(HtmlTag::HBox)
    } else if keyword == "node"@ {
        Some(HtmlTag::Node)
    } else if keyword == "label"@ {
        Some(HtmlTag::Label)
    } else if keyword == "button"@ {
        Some(HtmlTag::Button)
    } else if keyword == "spacer"@ {
        Some(HtmlTag::Spacer)
    } else {
        None
    }
}

/// The message for a keyword that names no tag.
pub open spec fn unknown_tag(keyword: Seq<char>) -> Seq<char> {
    "unknown tag `"@ + keyword + "`"@
}

impl HtmlTag {
    /// The keyword that the markup writes for the tag.
    pub open spec fn keyword(self) -> Seq<char> {
        match self {
            HtmlTag::Ui => "ui"@,
            HtmlTag::VBox => "vbox"@,
            HtmlTag::HBox => "hbox"@,
            HtmlTag::Node => "node"@,
            HtmlTag::Label => "label"@,
            HtmlTag::Button => "button"@,
            HtmlTag::Spacer => "spacer"@,
        }
    }

    /// The tag that `s` names. Any other keyword is a parse error that quotes it.
    pub fn from_str(s: &str) -> (r: Result<Self, HtmlUiError>)
        ensures
            match r {
                Ok(tag) => tag_named(s@) == Some(tag),
                Err(e) => tag_named(s@) is None && e@ == ErrorModel::ParseError(unknown_tag(s@)),
            },
    {
        let chars = chars_of(s);
        let keyword = chars.as_slice();
        if equals(keyword, "ui") {
            Ok(Self::Ui)
        } else if equals(keyword, "vbox") {
            Ok(Self::VBox)
        } else if equals(keyword, "hbox") {
            Ok(Self::HBox)
        } else if equals(keyword, "node") {
            Ok(Self::Node)
        } else if equals(keyword, "label") {
            Ok(Self::Label)
        } else if equals(keyword, "button") {
            Ok(Self::Button)
        } else if equals(keyword, "spacer") {
            Ok(Self::Spacer)
        } else {
            Err(
                HtmlUiError::ParseError(
                    String::from_str("unknown tag `").concat(s).concat("`"),
                ),
            )
        }
    }

    /// The keyword that the markup writes for the tag.
    pub fn as_str(self) -> (s: &'static str)
        ensures
            s@ == self.keyword(),
    {
        match self {
            Self::Ui => "ui",
            Self::VBox => "vbox",
            Self::HBox => "hbox",
            Self::Node => "node",
            Self::Label => "label",
            Self::Button => "button",
            Self::Spacer => "spacer",
        }
    }

    /// Each tag is the one that its own keyword names.
    pub proof fn lemma_keyword_names_tag(self)
        ensures
            tag_named(self.keyword()) == Some(self),
    {
        reveal_strlit("ui");
        reveal_strlit("vbox");
        reveal_strlit("hbox");
        reveal_strlit("node");
        reveal_strlit("label");
        reveal_strlit("button");
        reveal_strlit("spacer");
        assert("ui"@.len() == 2 && "label"@.len() == 5);
        assert("button"@.len() == 6 && "spacer"@.len() == 6);
        assert("button"@[0] == 'b' && "spacer"@[0] == 's');
        assert("vbox"@.len() == 4 && "hbox"@.len() == 4 && "node"@.len() == 4);
        assert("vbox"@[0] == 'v' && "hbox"@[0] == 'h' && "node"@[0] == 'n');
    }
}

/// A keyword names a tag only if it is that tag's keyword.
pub proof fn lemma_named_tag_has_keyword(keyword: Seq<char>)
    ensures
        tag_named(keyword) matches Some(tag) ==> tag.keyword() == keyword,
{
}

/// A node of the document: an element, or a run of text.
#[derive(Debug, PartialEq, Eq)]
pub enum HtmlNode {
    Element(HtmlElement),
    Text(String),
}

/// An element with its attributes and, in document order, its children.
#[derive(Debug, PartialEq, Eq)]
pub struct HtmlElement {
    pub tag: HtmlTag,
    pub name_id: Option<String>,
    pub classes: Vec<String>,
    pub gap: Dimension,
    pub autofocus: bool,
    pub callback: Option<String>,
    pub children: Vec<HtmlNode>,
}

/// A node as a value of mathematics.
pub enum NodeModel {
    Element(ElementModel),
    Text(Seq<char>),
}

/// An element as a value of mathematics.
pub struct ElementModel {
    pub tag: HtmlTag,
    pub name: Option<Seq<char>>,
    pub classes: Seq<Seq<char>>,
    pub gap: DimensionModel,
    pub autofocus: bool,
    pub callback: Option<Seq<char>>,
    pub children: Seq<NodeModel>,
}

impl ElementModel {
    /// The element of kind `tag` that has no attribute and no child.
    pub open spec fn bare(tag: HtmlTag) -> ElementModel {
        ElementModel {
            tag,
            name: None,
            classes: Seq::empty(),
            gap: DimensionModel::Auto,
            autofocus: false,
            callback: None,
            children: Seq::empty(),
        }
    }

    /// The element with `node` as one more child, behind those it has.
    pub open spec fn with_child(self, node: NodeModel) -> ElementModel {
        ElementModel { children: self.children.push(node), ..self }
    }
}

/// The view of an optional string.
pub open spec fn optional_view(s: Option<String>) -> Option<Seq<char>> {
    match s {
        Some(s) => Some(s@),
        None => None,
    }
}

impl View for HtmlNode {
    type V = NodeModel;

    open spec fn view(&self) -> NodeModel
        decreases self,
    {
        match self {
            HtmlNode::Text(s) => NodeModel::Text(s@),
            HtmlNode::Element(e) => NodeModel::Element(e@),
        }
    }
}

impl View for HtmlElement {
    type V = ElementModel;

    open spec fn view(&self) -> ElementModel
        decreases self,
    {
        ElementModel {
            tag: self.tag,
            name: optional_view(self.name_id),
            classes: crate::text::views(self.classes@),
            gap: self.gap@,
            autofocus: self.autofocus,
            callback: optional_view(self.callback),
            children: forest_view(self.children@),
        }
    }
}

/// A copy of an optional string.
fn clone_optional(s: &Option<String>) -> (r: Option<String>)
    ensures
        optional_view(r) == optional_view(*s),
{
    match s {
        Some(s) => Some(s.clone()),
        None => None,
    }
}

/// A copy of a list of strings.
fn clone_strings(v: &Vec<String>) -> (r: Vec<String>)
    ensures
        crate::text::views(r@) == crate::text::views(v@),
{
    let mut r: Vec<String> = Vec::new();
    let mut k: usize = 0;
    while k < v.len()
        invariant
            k <= v.len(),
            r.len() == k,
            forall|j: int| 0 <= j < k ==> r[j]@ == v[j]@,
        decreases v.len() - k,
    {
        r.push(v[k].clone());
        k += 1;
    }
    assert(crate::text::views(r@) =~= crate::text::views(v@));
    r
}

impl Clone for HtmlNode {
    fn clone(&self) -> (r: Self)
        ensures
            r@ == self@,
        decreases self,
    {
        match self {
            HtmlNode::Text(s) => HtmlNode::Text(s.clone()),
            HtmlNode::Element(e) => HtmlNode::Element(e.clone()),
        }
    }
}

impl Clone for HtmlElement {
    fn clone(&self) -> (r: Self)
        ensures
            r@ == self@,
        decreases self,
    {
        let mut children: Vec<HtmlNode> = Vec::new();
        let mut k: usize = 0;
        while k < self.children.len()
            invariant
                k <= self.children.len(),
                children.len() == k,
                forall|j: int| 0 <= j < k ==> children[j]@ == self.children[j]@,
            decreases self.children.len() - k,
        {
            children.push(self.children[k].clone());
            k += 1;
        }
        let r = HtmlElement {
            tag: self.tag,
            name_id: clone_optional(&self.name_id),
            classes: clone_strings(&self.classes),
            gap: self.gap.clone(),
            autofocus: self.autofocus,
            callback: clone_optional(&self.callback),
            children,
        };
        assert(forest_view(r.children@) =~= forest_view(self.children@));
        r
    }
}

/// The views of the nodes of a forest, in order.
pub open spec fn forest_view(nodes: Seq<HtmlNode>) -> Seq<NodeModel>
    decreases nodes,
{
    Seq::new(
        nodes.len(),
        |k: int|
            if 0 <= k < nodes.len() {
                nodes[k]@
            } else {
                NodeModel::Text(Seq::empty())
            },
    )
}

/// The views of the elements of a stack, bottom first.
pub open spec fn elements_view(elements: Seq<HtmlElement>) -> Seq<ElementModel> {
    Seq::new(elements.len(), |k: int| elements[k]@)
}

} // verus!
