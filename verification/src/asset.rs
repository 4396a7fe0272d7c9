//! What a markup file is once it is loaded.

use crate::ast::{forest_view, HtmlNode, NodeModel};
use crate::parser::parse_spec;
use vstd::prelude::*;

verus! {

/// A markup file once it is loaded: its text, and the forest that the text
/// denotes.
#[derive(Debug, Clone, PartialEq, Eq)]
pub struct HtmlUiAsset {
    pub source: String,
    pub ast: Vec<HtmlNode>,
}

impl HtmlUiAsset {
    /// The forest is the one that the text denotes.
    pub open spec fn wf(&self) -> bool {
        parse_spec(self.source@) == Ok::<Seq<NodeModel>, Seq<char>>(forest_view(self.ast@))
    }
}

} // verus!
