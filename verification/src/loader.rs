//! From the bytes of a markup file to its asset.

use crate::asset::HtmlUiAsset;
use crate::error::{ErrorModel, HtmlUiError};
use crate::parser::{parse_htmlish, parse_spec};
use vstd::prelude::*;
use vstd::utf8::{decode_utf8, valid_utf8};

verus! {

/// `String::from_utf8`: the string that `bytes` encode, where they are valid
/// UTF-8, and nothing where they are not.
#[verifier::external_body]
fn decode(bytes: Vec<u8>) -> (r: Option<String>)
    ensures
        r is Some <==> valid_utf8(bytes@),
        r matches Some(s) ==> s@ == decode_utf8(bytes@),
{
    String::from_utf8(bytes).ok()
}

/// Loads markup files.
#[derive(Debug, Clone, Copy, PartialEq, Eq, Structural)]
pub struct HtmlUiLoader;

impl HtmlUiLoader {
    /// Makes the asset of a markup file out of its bytes. Bytes that are not valid
    /// UTF-8 are refused as such; text that does not parse, with the parser's
    /// error.
    pub fn load(&self, bytes: Vec<u8>) -> (r: Result<HtmlUiAsset, HtmlUiError>)
        ensures
            match r {
                Ok(asset) => valid_utf8(bytes@) && asset.source@ == decode_utf8(bytes@)
                    && asset.wf(),
                Err(e) => if valid_utf8(bytes@) {
                    parse_spec(decode_utf8(bytes@)) matches Err(m) && e@
                        == ErrorModel::ParseError(m)
                } else {
                    e@ == ErrorModel::InvalidUtf8
                },
            },
    {
        let source = match decode(bytes) {
            Some(source) => source,
            None => {
                return Err(HtmlUiError::InvalidUtf8);
            },
        };
        let ast = match parse_htmlish(&source) {
            Ok(ast) => ast,
            Err(e) => {
                return Err(e);
            },
        };
        Ok(HtmlUiAsset { source, ast })
    }

    /// The file extensions that name markup files.
    pub fn extensions(&self) -> (r: &'static [&'static str])
        ensures
            r@.len() == 1,
            r@[0]@ == "html"@,
    {
        &["html"]
    }
}

} // verus!
