//! The errors of the library.

use vstd::prelude::*;
use vstd::string::StringExecFns;

verus! {

/// What can go wrong between the bytes of a markup file and a live tree.
#[derive(Debug, Clone, PartialEq, Eq)]
pub enum HtmlUiError {
    /// The source bytes are not valid UTF-8.
    InvalidUtf8,
    /// The markup is malformed; the message says how.
    ParseError(String),
    /// Reading the source failed; the message is the reader's.
    IoError(String),
    /// No source is configured.
    ResourceNotFound,
    /// A dependency reported itself loaded but its content is not there.
    AssetNotFound,
}

/// An error with its message as a sequence of characters.
pub enum ErrorModel {
    InvalidUtf8,
    ParseError(Seq<char>),
    IoError(Seq<char>),
    ResourceNotFound,
    AssetNotFound,
}

impl ErrorModel {
    /// The text shown for the error.
    pub open spec fn message(self) -> Seq<char> {
        match self {
            ErrorModel::InvalidUtf8 => "HTML source is not valid UTF-8"@,
            ErrorModel::ParseError(m) => "parse error: "@ + m,
            ErrorModel::IoError(m) => "io error: "@ + m,
            ErrorModel::ResourceNotFound => "resource not found"@,
            ErrorModel::AssetNotFound => "asset not found"@,
        }
    }
}

impl View for HtmlUiError {
    type V = ErrorModel;

    open spec fn view(&self) -> ErrorModel {
        match self {
            HtmlUiError::InvalidUtf8 => ErrorModel::InvalidUtf8,
            HtmlUiError::ParseError(m) => ErrorModel::ParseError(m@),
            HtmlUiError::IoError(m) => ErrorModel::IoError(m@),
            HtmlUiError::ResourceNotFound => ErrorModel::ResourceNotFound,
            HtmlUiError::AssetNotFound => ErrorModel::AssetNotFound,
        }
    }
}

impl HtmlUiError {
    /// The text shown for the error.
    pub fn message(&self) -> (s: String)
        ensures
            s@ == self@.message(),
    {
        match self {
            HtmlUiError::InvalidUtf8 => String::from_str("HTML source is not valid UTF-8"),
            HtmlUiError::ParseError(m) => String::from_str("parse error: ").concat(m.as_str()),
            HtmlUiError::IoError(m) => String::from_str("io error: ").concat(m.as_str()),
            HtmlUiError::ResourceNotFound => String::from_str("resource not found"),
            HtmlUiError::AssetNotFound => String::from_str("asset not found"),
        }
    }
}

} // verus!
