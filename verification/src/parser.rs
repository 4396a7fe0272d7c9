//! The parser: a scan over the characters of the source that reads one token
//! after the other and keeps the elements that are open on a stack.

use crate::ast::{elements_view, forest_view, ElementModel, HtmlElement, HtmlNode, NodeModel};
use crate::error::{ErrorModel, HtmlUiError};
use crate::outline::{forest_outline, lemma_parse_keeps_outline, source_outline};
use crate::structure::{
    forest_depth, forest_texts_trimmed, lemma_depth_is_nesting, lemma_parsed_texts_are_trimmed,
    nesting_from,
};
use crate::tag::{parse_tag, parse_tag_spec};
use crate::text::{chars_of, equals, occurs_at, push_chars, starts_with, string_of, trim, trimmed};
use vstd::prelude::*;
use vstd::slice::slice_subrange;
use vstd::string::StringExecFns;

verus! {

/// The first index at or after `from` that holds `c`, if there is one.
pub open spec fn index_of(s: Seq<char>, c: char, from: int) -> Option<int>
    decreases s.len() - from,
{
    if 0 <= from < s.len() {
        if s[from] == c {
            Some(from)
        } else {
            index_of(s, c, from + 1)
        }
    } else {
        None
    }
}

/// What `index_of` finds is the first `c` at or after `from`; it finds none only
/// where there is none.
pub proof fn lemma_index_of(s: Seq<char>, c: char, from: int)
    requires
        0 <= from,
    ensures
        match index_of(s, c, from) {
            Some(at) => from <= at < s.len() && s[at] == c && forall|k: int|
                from <= k < at ==> #[trigger] s[k] != c,
            None => forall|k: int| from <= k < s.len() ==> #[trigger] s[k] != c,
        },
    decreases s.len() - from,
{
    if from < s.len() && s[from] != c {
        lemma_index_of(s, c, from + 1);
    }
}

/// Finds the first `needle` at or after `start`. The needles of the markup are
/// single bytes in UTF-8; the search itself goes by characters.
pub fn find_byte(chars: &[char], needle: char, start: usize) -> (r: Result<usize, HtmlUiError>)
    requires
        start <= chars.len(),
    ensures
        match r {
            Ok(at) => index_of(chars@, needle, start as int) == Some(at as int),
            Err(e) => index_of(chars@, needle, start as int) is None && e@
                == ErrorModel::ParseError("unexpected end of input"@),
        },
{
    let mut i = start;
    while i < chars.len()
        invariant
            start <= i <= chars.len(),
            index_of(chars@, needle, i as int) == index_of(chars@, needle, start as int),
        decreases chars.len() - i,
    {
        if chars[i] == needle {
            return Ok(i);
        }
        i += 1;
    }
    Err(HtmlUiError::ParseError(String::from_str("unexpected end of input")))
}

/// The index behind the first `-->` that begins at or after `from`, if there is
/// one.
pub open spec fn comment_close(s: Seq<char>, from: int) -> Option<int>
    decreases s.len() - from,
{
    if 0 <= from && from + 2 < s.len() {
        if s[from] == '-' && s[from + 1] == '-' && s[from + 2] == '>' {
            Some(from + 3)
        } else {
            comment_close(s, from + 1)
        }
    } else {
        None
    }
}

/// A comment that closes does so inside the source, behind the three characters
/// of its terminator.
pub proof fn lemma_comment_close(s: Seq<char>, from: int)
    requires
        0 <= from,
    ensures
        comment_close(s, from) matches Some(end) ==> from + 3 <= end <= s.len(),
    decreases s.len() - from,
{
    if from + 2 < s.len() && !(s[from] == '-' && s[from + 1] == '-' && s[from + 2] == '>') {
        lemma_comment_close(s, from + 1);
    }
}

/// Finds the end of the comment that opens at `start`: the index behind the first
/// `-->` that begins behind the four characters of `<!--`.
pub fn find_comment_end(chars: &[char], start: usize) -> (r: Result<usize, HtmlUiError>)
    requires
        start + 4 <= usize::MAX,
    ensures
        match r {
            Ok(end) => comment_close(chars@, start + 4) == Some(end as int),
            Err(e) => comment_close(chars@, start + 4) is None && e@ == ErrorModel::ParseError(
                "unclosed HTML comment"@,
            ),
        },
{
    let mut i = start + 4;
    while i < chars.len() && chars.len() - i > 2
        invariant
            start + 4 <= i,
            comment_close(chars@, i as int) == comment_close(chars@, start + 4),
        decreases chars.len() - i,
    {
        if chars[i] == '-' && chars[i + 1] == '-' && chars[i + 2] == '>' {
            return Ok(i + 3);
        }
        i += 1;
    }
    Err(HtmlUiError::ParseError(String::from_str("unclosed HTML comment")))
}

/// What the scanner reads at one position.
pub enum Token {
    /// A comment, from `<!--` to `-->`.
    Comment,
    /// A closing tag, with the trimmed name that it holds.
    Close(Seq<char>),
    /// An opening tag, with its header: all that stands between `<` and `>`.
    Open(Seq<char>),
    /// The text up to the next `<`, trimmed.
    Text(Seq<char>),
}

/// The token that begins at index `i`, and the index behind it. At a `<` the
/// comment marker is tried first, then the `/` of a closing tag; a tag ends at the
/// next `>`, whatever stands before it.
pub open spec fn token_at(s: Seq<char>, i: int) -> Result<(Token, int), Seq<char>> {
    if s[i] == '<' {
        if occurs_at(s, i, "<!--"@) {
            match comment_close(s, i + 4) {
                Some(end) => Ok((Token::Comment, end)),
                None => Err("unclosed HTML comment"@),
            }
        } else {
            match index_of(s, '>', i) {
                Some(end) => if i + 1 < s.len() && s[i + 1] == '/' {
                    Ok((Token::Close(trimmed(s.subrange(i + 2, end))), end + 1))
                } else {
                    Ok((Token::Open(s.subrange(i + 1, end)), end + 1))
                },
                None => Err("unexpected end of input"@),
            }
        }
    } else {
        match index_of(s, '<', i) {
            Some(end) => Ok((Token::Text(trimmed(s.subrange(i, end))), end)),
            None => Ok((Token::Text(trimmed(s.subrange(i, s.len() as int))), s.len() as int)),
        }
    }
}

/// A token ends behind the index at which it begins, and inside the source.
pub proof fn lemma_token_at(s: Seq<char>, i: int)
    requires
        0 <= i < s.len(),
    ensures
        token_at(s, i) matches Ok((_, next)) ==> i < next <= s.len(),
{
    lemma_comment_close(s, i + 4);
    lemma_index_of(s, '>', i);
    lemma_index_of(s, '<', i);
}

/// Where the parser stands: the elements that are open, outermost first, each
/// with the children it has so far; and the finished nodes of the top level.
pub struct ParseState {
    pub open: Seq<ElementModel>,
    pub done: Seq<NodeModel>,
}

/// The message for a closing tag that finds no element open.
pub open spec fn unmatched_close(found: Seq<char>) -> Seq<char> {
    "unmatched closing tag </"@ + found + ">"@
}

/// The message for a closing tag that names another element than the innermost
/// open one.
pub open spec fn mismatched_close(expected: Seq<char>, found: Seq<char>) -> Seq<char> {
    "expected </"@ + expected + "> but found </"@ + found + ">"@
}

impl ParseState {
    /// Nothing open, nothing done.
    pub open spec fn start() -> ParseState {
        ParseState { open: Seq::empty(), done: Seq::empty() }
    }

    /// The state once `node` is finished: it is the next child of the innermost
    /// open element, or the next node of the top level if none is open.
    pub open spec fn attach(self, node: NodeModel) -> ParseState {
        if self.open.len() > 0 {
            ParseState {
                open: self.open.update(self.open.len() - 1, self.open.last().with_child(node)),
                done: self.done,
            }
        } else {
            ParseState { open: self.open, done: self.done.push(node) }
        }
    }

    /// The state once `token` is read, or the message that says why it cannot be.
    pub open spec fn accept(self, token: Token) -> Result<ParseState, Seq<char>> {
        match token {
            Token::Comment => Ok(self),
            Token::Text(text) => if text.len() > 0 {
                Ok(self.attach(NodeModel::Text(text)))
            } else {
                Ok(self)
            },
            Token::Close(name) => if self.open.len() == 0 {
                Err(unmatched_close(name))
            } else if self.open.last().tag.keyword() != name {
                Err(mismatched_close(self.open.last().tag.keyword(), name))
            } else {
                Ok(
                    ParseState { open: self.open.drop_last(), done: self.done }.attach(
                        NodeModel::Element(self.open.last()),
                    ),
                )
            },
            Token::Open(header) => match parse_tag_spec(header) {
                Ok((el, self_closing)) => if self_closing {
                    Ok(self.attach(NodeModel::Element(el)))
                } else {
                    Ok(ParseState { open: self.open.push(el), done: self.done })
                },
                Err(message) => Err(message),
            },
        }
    }
}

/// What the source from index `i` on makes of `state`: its tokens are read one
/// after the other, and the first that fails ends the parse. At the end of the
/// source no element may be open.
pub open spec fn parse_from(s: Seq<char>, i: int, state: ParseState) -> Result<
    Seq<NodeModel>,
    Seq<char>,
>
    decreases s.len() - i,
{
    if 0 <= i < s.len() {
        proof {
            lemma_token_at(s, i);
        }
        match token_at(s, i) {
            Ok((token, next)) => match state.accept(token) {
                Ok(after) => parse_from(s, next, after),
                Err(message) => Err(message),
            },
            Err(message) => Err(message),
        }
    } else if state.open.len() > 0 {
        Err("unclosed tag"@)
    } else {
        Ok(state.done)
    }
}

/// The forest that a source denotes, or the message of its first error.
pub open spec fn parse_spec(s: Seq<char>) -> Result<Seq<NodeModel>, Seq<char>> {
    parse_from(s, 0, ParseState::start())
}

/// The state that a stack and a forest stand for.
pub open spec fn state_of(stack: Seq<HtmlElement>, nodes: Seq<HtmlNode>) -> ParseState {
    ParseState { open: elements_view(stack), done: forest_view(nodes) }
}

/// Hands a finished node to the innermost open element, or to the top level.
fn attach(stack: &mut Vec<HtmlElement>, nodes: &mut Vec<HtmlNode>, node: HtmlNode)
    ensures
        state_of(final(stack)@, final(nodes)@) == state_of(old(stack)@, old(nodes)@).attach(node@),
{
    let ghost before = state_of(stack@, nodes@);
    match stack.pop() {
        Some(mut parent) => {
            let ghost kids = forest_view(parent.children@);
            parent.children.push(node);
            assert(forest_view(parent.children@) =~= kids.push(node@));
            stack.push(parent);
            assert(elements_view(stack@) =~= before.attach(node@).open);
        },
        None => {
            nodes.push(node);
            assert(forest_view(nodes@) =~= before.done.push(node@));
            assert(elements_view(stack@) =~= before.open);
        },
    }
}

/// Parses a source into its forest, or fails with the first error in it.
///
/// Of a forest that comes back it holds besides: its elements nest as deep as the
/// tags of the source; its outline is that of the source, so that every opening
/// tag is answered by the closing tag of its own keyword; and none of its texts is
/// empty or begins or ends with white space. The outline says it all: a source
/// parses exactly where it can be read and writes the outline of a forest, and
/// then into that forest and no other.
#[verifier::loop_isolation(false)]
pub fn parse_htmlish(source: &String) -> (r: Result<Vec<HtmlNode>, HtmlUiError>)
    ensures
        match r {
            Ok(nodes) => {
                &&& parse_spec(source@) == Ok::<Seq<NodeModel>, Seq<char>>(forest_view(nodes@))
                &&& forest_depth(forest_view(nodes@)) == nesting_from(source@, 0, 0)
                &&& forest_outline(forest_view(nodes@)) == source_outline(source@, 0)
                &&& forest_texts_trimmed(forest_view(nodes@))
            },
            Err(e) => parse_spec(source@) matches Err(m) && e@ == ErrorModel::ParseError(m),
        },
{
    let mut nodes: Vec<HtmlNode> = Vec::new();
    let mut stack: Vec<HtmlElement> = Vec::new();
    let text = chars_of(source.as_str());
    let chars = text.as_slice();
    let mut i: usize = 0;
    assert(state_of(stack@, nodes@) =~= ParseState::start()) by {
        assert(elements_view(stack@) =~= Seq::empty());
        assert(forest_view(nodes@) =~= Seq::empty());
    }
    while i < chars.len()
        invariant
            i <= chars.len(),
            chars@ == source@,
            parse_from(chars@, i as int, state_of(stack@, nodes@)) == parse_spec(chars@),
        decreases chars.len() - i,
    {
        let ghost state = state_of(stack@, nodes@);
        proof {
            lemma_token_at(chars@, i as int);
        }
        if chars[i] == '<' {
            // A comment
            if starts_with(chars, i, "<!--") {
                proof {
                    reveal_strlit("<!--");
                }
                let end = match find_comment_end(chars, i) {
                    Ok(end) => end,
                    Err(e) => {
                        return Err(e);
                    },
                };
                assert(token_at(chars@, i as int) == Ok::<(Token, int), Seq<char>>(
                    (Token::Comment, end as int),
                ));
                i = end;
                continue;
            }
            let end = match find_byte(chars, '>', i) {
                Ok(end) => end,
                Err(e) => {
                    return Err(e);
                },
            };
            proof {
                lemma_index_of(chars@, '>', i as int);
            }
            if i + 1 < chars.len() && chars[i + 1] == '/' {
                // A closing tag
                let tag_name = trim(slice_subrange(chars, i + 2, end));
                assert(token_at(chars@, i as int) == Ok::<(Token, int), Seq<char>>(
                    (Token::Close(tag_name@), end + 1),
                ));
                let element = match stack.pop() {
                    Some(element) => element,
                    None => {
                        let mut message = String::from_str("unmatched closing tag </");
                        push_chars(&mut message, tag_name);
                        message.append(">");
                        return Err(HtmlUiError::ParseError(message));
                    },
                };
                assert(element@ == state.open.last());
                if !equals(tag_name, element.tag.as_str()) {
                    let mut message = String::from_str("expected </");
                    message.append(element.tag.as_str());
                    message.append("> but found </");
                    push_chars(&mut message, tag_name);
                    message.append(">");
                    return Err(HtmlUiError::ParseError(message));
                }
                assert(elements_view(stack@) =~= state.open.drop_last());
                attach(&mut stack, &mut nodes, HtmlNode::Element(element));
            } else {
                // An opening tag
                let tag_src = slice_subrange(chars, i + 1, end);
                assert(token_at(chars@, i as int) == Ok::<(Token, int), Seq<char>>(
                    (Token::Open(tag_src@), end + 1),
                ));
                let (element, self_closing) = match parse_tag(tag_src) {
                    Ok(parsed) => parsed,
                    Err(e) => {
                        return Err(e);
                    },
                };
                if self_closing {
                    attach(&mut stack, &mut nodes, HtmlNode::Element(element));
                } else {
                    stack.push(element);
                    assert(elements_view(stack@) =~= state.open.push(element@));
                }
            }
            i = end + 1;
        } else {
            // Text
            let end = match find_byte(chars, '<', i) {
                Ok(end) => end,
                Err(_) => chars.len(),
            };
            proof {
                lemma_index_of(chars@, '<', i as int);
            }
            let text = trim(slice_subrange(chars, i, end));
            assert(token_at(chars@, i as int) == Ok::<(Token, int), Seq<char>>(
                (Token::Text(text@), end as int),
            ));
            if text.len() > 0 {
                attach(&mut stack, &mut nodes, HtmlNode::Text(string_of(text)));
            }
            i = end;
        }
    }
    if stack.len() > 0 {
        return Err(HtmlUiError::ParseError(String::from_str("unclosed tag")));
    }
    proof {
        lemma_depth_is_nesting(source@);
        lemma_parse_keeps_outline(source@);
        lemma_parsed_texts_are_trimmed(source@);
    }
    Ok(nodes)
}

} // verus!
