//! A small markup language for user interfaces: its parser, the plan that turns a
//! parsed document into a live tree, and the reconciler that keeps the live tree
//! in step with the document, its style sheet and the configuration.
//!
//! The library computes and decides; it touches no file, no asset store and no
//! live tree. Whoever drives it reads the bytes, polls the assets, carries out the
//! plans and tells the reconciler what came of them.

pub mod asset;
pub mod ast;
pub mod builder;
pub mod dimension;
pub mod error;
pub mod loader;
pub mod outline;
pub mod parser;
pub mod reconciler;
pub mod structure;
pub mod tag;
pub mod text;

pub use asset::HtmlUiAsset;
pub use ast::{HtmlElement, HtmlNode, HtmlTag};
pub use builder::{plan_html_ui, BuildPlan, BuildStep, Template};
pub use dimension::{Dimension, Number};
pub use error::HtmlUiError;
pub use loader::HtmlUiLoader;
pub use parser::parse_htmlish;
pub use reconciler::{Action, Binding, Event, Reconciler};
