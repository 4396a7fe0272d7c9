//! The header of a tag: its tokens, the keyword and the attributes.

use crate::ast::{tag_named, unknown_tag, ElementModel, HtmlElement, HtmlTag};
use crate::dimension::{parse_val, parse_val_spec, Dimension};
use crate::error::{ErrorModel, HtmlUiError};
use crate::text::{
    equals, is_space, is_whitespace, push_words, string_of, strip_prefix, trim, trim_end_matches,
    trimmed, views, without_prefix, without_trailing, words,
};
use vstd::prelude::*;
use vstd::slice::slice_subrange;
use vstd::string::StringExecFns;

verus! {

/// The end of the token that begins at `from`: the first index at or after `from`
/// that holds white space outside quotes; the length of `s` if there is none. A
/// `"` opens a quoted span or closes the one that is open, and `quoted` says
/// whether one is open at `from`.
pub open spec fn token_end(s: Seq<char>, from: int, quoted: bool) -> int
    decreases s.len() - from,
{
    if 0 <= from < s.len() {
        if s[from] == '"' {
            token_end(s, from + 1, !quoted)
        } else if is_space(s[from]) && !quoted {
            from
        } else {
            token_end(s, from + 1, quoted)
        }
    } else {
        from
    }
}

/// Where `token_end` stops: inside `s`, and on white space unless at the end.
pub proof fn lemma_token_end(s: Seq<char>, from: int, quoted: bool)
    requires
        0 <= from <= s.len(),
    ensures
        from <= token_end(s, from, quoted) <= s.len(),
        token_end(s, from, quoted) < s.len() ==> is_space(s[token_end(s, from, quoted)]),
    decreases s.len() - from,
{
    if from < s.len() {
        if s[from] == '"' {
            lemma_token_end(s, from + 1, !quoted);
        } else if !(is_space(s[from]) && !quoted) {
            lemma_token_end(s, from + 1, quoted);
        }
    }
}

/// The tokens of `s` from index `from` on, in order. White space outside quotes
/// parts the tokens and belongs to none; no token is empty.
pub open spec fn tokens_from(s: Seq<char>, from: int) -> Seq<Seq<char>>
    decreases s.len() - from,
{
    if 0 <= from < s.len() {
        proof {
            lemma_token_end(s, from, false);
        }
        if token_end(s, from, false) == from {
            tokens_from(s, from + 1)
        } else {
            seq![s.subrange(from, token_end(s, from, false))] + tokens_from(
                s,
                token_end(s, from, false),
            )
        }
    } else {
        seq![]
    }
}

/// The tokens of a tag header.
pub open spec fn tokens(s: Seq<char>) -> Seq<Seq<char>> {
    tokens_from(s, 0)
}

/// The views of the slices in `v`.
pub open spec fn slices_view(v: Seq<&[char]>) -> Seq<Seq<char>> {
    Seq::new(v.len(), |k: int| v[k]@)
}

/// Splits `s` at the white space that stands outside quotes.
pub fn split_quoted_whitespace<'a>(s: &'a [char]) -> (parts: Vec<&'a [char]>)
    ensures
        slices_view(parts@) == tokens(s@),
{
    let mut parts: Vec<&'a [char]> = Vec::new();
    let mut start: usize = 0;
    let mut in_quotes = false;
    let mut i: usize = 0;
    while i < s.len()
        invariant
            start <= i <= s.len(),
            token_end(s@, i as int, in_quotes) == token_end(s@, start as int, false),
            slices_view(parts@) + tokens_from(s@, start as int) == tokens(s@),
        decreases s.len() - i,
    {
        let c = s[i];
        if c == '"' {
            in_quotes = !in_quotes;
        } else if is_whitespace(c) && !in_quotes {
            let ghost before = slices_view(parts@);
            assert(token_end(s@, i as int, false) == i);
            assert(tokens_from(s@, i as int) == tokens_from(s@, i + 1));
            if start < i {
                parts.push(slice_subrange(s, start, i));
                assert(slices_view(parts@) =~= before + seq![s@.subrange(start as int, i as int)]);
                assert(tokens_from(s@, start as int) == seq![s@.subrange(start as int, i as int)]
                    + tokens_from(s@, i as int));
            }
            assert(slices_view(parts@) + tokens_from(s@, i + 1) =~= before + tokens_from(
                s@,
                start as int,
            ));
            start = i + 1;
        }
        i += 1;
    }
    if start < s.len() {
        let ghost before = slices_view(parts@);
        parts.push(slice_subrange(s, start, s.len()));
        assert(slices_view(parts@) =~= before + seq![s@.subrange(start as int, s@.len() as int)]);
        assert(tokens_from(s@, s@.len() as int) =~= seq![]);
        assert(tokens_from(s@, start as int) =~= seq![s@.subrange(start as int, s@.len() as int)]);
    } else {
        assert(slices_view(parts@) + tokens_from(s@, start as int) =~= slices_view(parts@));
    }
    parts
}

/// What an attribute holds between its quotes: what follows the opening quote,
/// without the quotes at its end.
pub open spec fn attribute_value(rest: Seq<char>) -> Seq<char> {
    without_trailing(rest, '"')
}

/// The element once the attribute token `part` is read. `id` and `callback`
/// replace what was there, `class` adds its words to the classes, `gap` is read as
/// a dimension and may fail, `autofocus` sets the flag, and any other token
/// changes nothing.
pub open spec fn with_attribute(el: ElementModel, part: Seq<char>) -> Result<
    ElementModel,
    Seq<char>,
> {
    if let Some(rest) = without_prefix(part, "id=\""@) {
        Ok(ElementModel { name: Some(attribute_value(rest)), ..el })
    } else if let Some(rest) = without_prefix(part, "class=\""@) {
        Ok(ElementModel { classes: el.classes + words(attribute_value(rest)), ..el })
    } else if let Some(rest) = without_prefix(part, "gap=\""@) {
        match parse_val_spec(attribute_value(rest)) {
            Ok(gap) => Ok(ElementModel { gap, ..el }),
            Err(message) => Err(message),
        }
    } else if part == "autofocus"@ {
        Ok(ElementModel { autofocus: true, ..el })
    } else if let Some(rest) = without_prefix(part, "callback=\""@) {
        Ok(ElementModel { callback: Some(attribute_value(rest)), ..el })
    } else {
        Ok(el)
    }
}

/// The element once the tokens from index `from` on are read, one after the other;
/// the first that fails ends the reading.
pub open spec fn with_attributes(el: ElementModel, parts: Seq<Seq<char>>, from: int) -> Result<
    ElementModel,
    Seq<char>,
>
    decreases parts.len() - from,
{
    if 0 <= from < parts.len() {
        match with_attribute(el, parts[from]) {
            Ok(next) => with_attributes(next, parts, from + 1),
            Err(message) => Err(message),
        }
    } else {
        Ok(el)
    }
}

/// What a tag header denotes: the element without children, and whether the tag
/// closes itself. The header is trimmed; it closes itself if it then ends in `/`,
/// and the slashes at its end are dropped. Its first token is the keyword, the
/// others are attributes.
pub open spec fn parse_tag_spec(src: Seq<char>) -> Result<(ElementModel, bool), Seq<char>> {
    let inner = trimmed(src);
    let self_closing = inner.len() > 0 && inner.last() == '/';
    let parts = tokens(without_trailing(inner, '/'));
    if parts.len() == 0 {
        Err("empty tag"@)
    } else {
        match tag_named(parts[0]) {
            None => Err(unknown_tag(parts[0])),
            Some(tag) => match with_attributes(ElementModel::bare(tag), parts, 1) {
                Ok(el) => Ok((el, self_closing)),
                Err(message) => Err(message),
            },
        }
    }
}

/// Reads a tag header: what stands between `<` and `>`.
#[verifier::loop_isolation(false)]
pub fn parse_tag(src: &[char]) -> (r: Result<(HtmlElement, bool), HtmlUiError>)
    ensures
        match r {
            Ok((el, self_closing)) => parse_tag_spec(src@) == Ok::<
                (ElementModel, bool),
                Seq<char>,
            >((el@, self_closing)),
            Err(e) => parse_tag_spec(src@) matches Err(m) && e@ == ErrorModel::ParseError(m),
        },
{
    let inner = trim(src);
    let self_closing = inner.len() > 0 && inner[inner.len() - 1] == '/';
    let parts = split_quoted_whitespace(trim_end_matches(inner, '/'));
    if parts.len() == 0 {
        return Err(HtmlUiError::ParseError(String::from_str("empty tag")));
    }
    let keyword = string_of(parts[0]);
    let tag = match HtmlTag::from_str(keyword.as_str()) {
        Ok(tag) => tag,
        Err(e) => {
            return Err(e);
        },
    };
    let mut el = HtmlElement {
        tag,
        name_id: None,
        classes: Vec::new(),
        gap: Dimension::Auto,
        autofocus: false,
        callback: None,
        children: Vec::new(),
    };
    assert(el@ =~= ElementModel::bare(tag)) by {
        assert(el@.classes =~= Seq::empty());
        assert(el@.children =~= Seq::empty());
    }
    let ghost all = slices_view(parts@);
    let mut k: usize = 1;
    while k < parts.len()
        invariant
            1 <= k <= parts.len(),
            all == slices_view(parts@),
            with_attributes(el@, all, k as int) == with_attributes(ElementModel::bare(tag), all, 1),
        decreases parts.len() - k,
    {
        let part = parts[k];
        let ghost before = el@;
        assert(all[k as int] == part@);
        if let Some(rest) = strip_prefix(part, "id=\"") {
            el.name_id = Some(string_of(trim_end_matches(rest, '"')));
        } else if let Some(rest) = strip_prefix(part, "class=\"") {
            push_words(&mut el.classes, trim_end_matches(rest, '"'));
        } else if let Some(rest) = strip_prefix(part, "gap=\"") {
            match parse_val(trim_end_matches(rest, '"')) {
                Ok(gap) => {
                    el.gap = gap;
                },
                Err(e) => {
                    assert(with_attribute(before, part@) is Err);
                    assert(with_attributes(before, all, k as int) == with_attribute(
                        before,
                        part@,
                    ));
                    return Err(e);
                },
            }
        } else if equals(part, "autofocus") {
            el.autofocus = true;
        } else if let Some(rest) = strip_prefix(part, "callback=\"") {
            el.callback = Some(string_of(trim_end_matches(rest, '"')));
        }
        assert(with_attribute(before, part@) == Ok::<ElementModel, Seq<char>>(el@));
        k += 1;
    }
    Ok((el, self_closing))
}

} // verus!
