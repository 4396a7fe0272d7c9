//! What holds of every parse: how a tag that closes itself is taken in, that texts
//! come out trimmed, and that the forest is as deep as the tags nest.

use crate::ast::{ElementModel, NodeModel};
use crate::parser::{lemma_token_at, parse_from, parse_spec, token_at, ParseState, Token};
use crate::tag::{parse_tag_spec, tokens, with_attribute, with_attributes};
use crate::text::{is_space, is_trimmed, lemma_trimmed, trimmed, without_trailing};
use vstd::prelude::*;

verus! {

/// Reading attributes changes neither the kind of an element nor its children.
pub proof fn lemma_with_attributes(el: ElementModel, parts: Seq<Seq<char>>, from: int)
    ensures
        with_attributes(el, parts, from) matches Ok(after) ==> after.tag == el.tag
            && after.children == el.children,
    decreases parts.len() - from,
{
    if 0 <= from < parts.len() {
        if let Ok(next) = with_attribute(el, parts[from]) {
            lemma_with_attributes(next, parts, from + 1);
        }
    }
}

/// A tag header denotes an element without children.
pub proof fn lemma_parse_tag_no_children(header: Seq<char>)
    ensures
        parse_tag_spec(header) matches Ok((el, _)) ==> el.children.len() == 0,
{
    let parts = tokens(without_trailing(trimmed(header), '/'));
    if parts.len() > 0 {
        if let Some(tag) = crate::ast::tag_named(parts[0]) {
            lemma_with_attributes(ElementModel::bare(tag), parts, 1);
        }
    }
}

/// A tag that closes itself becomes an element without children, handed at once
/// to the innermost open element, or to the top level if none is open; it is never
/// opened, so as many elements are open after it as before.
pub proof fn lemma_self_closing_tag(state: ParseState, header: Seq<char>)
    requires
        parse_tag_spec(header) matches Ok((_, self_closing)) && self_closing,
    ensures
        ({
            let el = parse_tag_spec(header)->Ok_0.0;
            let after = state.accept(Token::Open(header));
            &&& el.children.len() == 0
            &&& after == Ok::<ParseState, Seq<char>>(state.attach(NodeModel::Element(el)))
            &&& after->Ok_0.open.len() == state.open.len()
            &&& state.open.len() > 0 ==> after->Ok_0.done == state.done
                && after->Ok_0.open.last().children == state.open.last().children.push(
                NodeModel::Element(el),
            )
            &&& state.open.len() == 0 ==> after->Ok_0.done == state.done.push(
                NodeModel::Element(el),
            )
        }),
{
    lemma_parse_tag_no_children(header);
}

/// Text that holds nothing but white space adds no node: the state stays as it
/// is.
pub proof fn lemma_blank_text_adds_nothing(state: ParseState, raw: Seq<char>)
    requires
        forall|k: int| 0 <= k < raw.len() ==> is_space(#[trigger] raw[k]),
    ensures
        state.accept(Token::Text(trimmed(raw))) == Ok::<ParseState, Seq<char>>(state),
{
    lemma_trimmed(raw);
}

/// Whether every text in the node is non-empty and trimmed.
pub open spec fn texts_trimmed(node: NodeModel) -> bool
    decreases node,
{
    match node {
        NodeModel::Text(text) => text.len() > 0 && is_trimmed(text),
        NodeModel::Element(el) => forall|k: int|
            0 <= k < el.children.len() ==> texts_trimmed(#[trigger] el.children[k]),
    }
}

/// Whether every text in the forest is non-empty and trimmed.
pub open spec fn forest_texts_trimmed(forest: Seq<NodeModel>) -> bool {
    forall|k: int| 0 <= k < forest.len() ==> texts_trimmed(#[trigger] forest[k])
}

/// Whether every text in the state is non-empty and trimmed.
pub open spec fn state_texts_trimmed(state: ParseState) -> bool {
    &&& forest_texts_trimmed(state.done)
    &&& forall|j: int|
        0 <= j < state.open.len() ==> forest_texts_trimmed(#[trigger] state.open[j].children)
}

/// Handing on a node whose texts are trimmed keeps the texts of the state trimmed.
proof fn lemma_attach_texts(state: ParseState, node: NodeModel)
    requires
        state_texts_trimmed(state),
        texts_trimmed(node),
    ensures
        state_texts_trimmed(state.attach(node)),
{
    let after = state.attach(node);
    if state.open.len() > 0 {
        let top = state.open.len() - 1;
        assert forall|j: int| 0 <= j < after.open.len() implies forest_texts_trimmed(
            #[trigger] after.open[j].children,
        ) by {
            if j == top {
                assert forall|k: int| 0 <= k < after.open[j].children.len() implies texts_trimmed(
                    #[trigger] after.open[j].children[k],
                ) by {
                    if k < state.open[j].children.len() {
                        assert(forest_texts_trimmed(state.open[j].children));
                        assert(after.open[j].children[k] == state.open[j].children[k]);
                    }
                }
            } else {
                assert(after.open[j] == state.open[j]);
            }
        }
    } else {
        assert forall|k: int| 0 <= k < after.done.len() implies texts_trimmed(
            #[trigger] after.done[k],
        ) by {
            if k < state.done.len() {
                assert(after.done[k] == state.done[k]);
            }
        }
    }
}

/// Reading a token of the source keeps the texts of the state trimmed.
proof fn lemma_accept_texts(s: Seq<char>, i: int, state: ParseState)
    requires
        0 <= i < s.len(),
        state_texts_trimmed(state),
    ensures
        token_at(s, i) matches Ok((token, _)) ==> (state.accept(token) matches Ok(after)
            ==> state_texts_trimmed(after)),
{
    if let Ok((token, _)) = token_at(s, i) {
        if let Ok(after) = state.accept(token) {
            match token {
                Token::Comment => {},
                Token::Text(text) => {
                    if text.len() > 0 {
                        assert(is_trimmed(text)) by {
                            crate::parser::lemma_index_of(s, '<', i);
                            match crate::parser::index_of(s, '<', i) {
                                Some(end) => lemma_trimmed(s.subrange(i, end)),
                                None => lemma_trimmed(s.subrange(i, s.len() as int)),
                            }
                        }
                        lemma_attach_texts(state, NodeModel::Text(text));
                    }
                },
                Token::Close(_) => {
                    let top = state.open.last();
                    let below = ParseState { open: state.open.drop_last(), done: state.done };
                    assert(state_texts_trimmed(below)) by {
                        assert forall|j: int| 0 <= j < below.open.len() implies forest_texts_trimmed(
                            #[trigger] below.open[j].children,
                        ) by {
                            assert(below.open[j] == state.open[j]);
                        }
                    }
                    assert(texts_trimmed(NodeModel::Element(top))) by {
                        assert(forest_texts_trimmed(state.open[state.open.len() - 1].children));
                    }
                    lemma_attach_texts(below, NodeModel::Element(top));
                },
                Token::Open(header) => {
                    lemma_parse_tag_no_children(header);
                    let (el, self_closing) = parse_tag_spec(header)->Ok_0;
                    if self_closing {
                        lemma_attach_texts(state, NodeModel::Element(el));
                    } else {
                        assert forall|j: int| 0 <= j < after.open.len() implies forest_texts_trimmed(
                            #[trigger] after.open[j].children,
                        ) by {
                            if j < state.open.len() {
                                assert(after.open[j] == state.open[j]);
                            }
                        }
                    }
                },
            }
        }
    }
}

/// Parsing from a state whose texts are trimmed gives a forest whose texts are.
proof fn lemma_parse_from_texts(s: Seq<char>, i: int, state: ParseState)
    requires
        0 <= i,
        state_texts_trimmed(state),
    ensures
        parse_from(s, i, state) matches Ok(forest) ==> forest_texts_trimmed(forest),
    decreases s.len() - i,
{
    if i < s.len() {
        lemma_token_at(s, i);
        lemma_accept_texts(s, i, state);
        if let Ok((token, next)) = token_at(s, i) {
            if let Ok(after) = state.accept(token) {
                lemma_parse_from_texts(s, next, after);
            }
        }
    }
}

/// No text of a parsed forest is empty, and white space neither begins nor ends
/// one: text between tags that is nothing but white space has left no node.
pub proof fn lemma_parsed_texts_are_trimmed(s: Seq<char>)
    ensures
        parse_spec(s) matches Ok(forest) ==> forest_texts_trimmed(forest),
{
    lemma_parse_from_texts(s, 0, ParseState::start());
}

/// The greater of two numbers.
pub open spec fn greater(a: nat, b: nat) -> nat {
    if a >= b {
        a
    } else {
        b
    }
}

/// How deep the elements of a node nest: a text counts nothing, an element one
/// more than its children.
pub open spec fn node_depth(node: NodeModel) -> nat
    decreases node, 0nat,
{
    match node {
        NodeModel::Text(_) => 0,
        NodeModel::Element(el) => 1 + depth_of_first(el.children, el.children.len()),
    }
}

/// The greatest depth among the first `n` nodes of `forest`.
pub open spec fn depth_of_first(forest: Seq<NodeModel>, n: nat) -> nat
    decreases forest, n,
{
    if 0 < n <= forest.len() {
        greater(depth_of_first(forest, (n - 1) as nat), node_depth(forest[n - 1]))
    } else {
        0
    }
}

/// How deep the elements of a forest nest.
pub open spec fn forest_depth(forest: Seq<NodeModel>) -> nat {
    depth_of_first(forest, forest.len())
}

/// How many elements are open once `token` is read where `level` were open. A tag
/// that closes itself leaves the level as it is.
pub open spec fn level_after(token: Token, level: nat) -> nat {
    match token {
        Token::Open(header) => match parse_tag_spec(header) {
            Ok((_, self_closing)) => if self_closing {
                level
            } else {
                level + 1
            },
            Err(_) => level,
        },
        Token::Close(_) => if level > 0 {
            (level - 1) as nat
        } else {
            0
        },
        _ => level,
    }
}

/// The level that `token` itself stands for where `level` elements are open: a tag
/// that closes itself is one level deeper while it lasts.
pub open spec fn level_within(token: Token, level: nat) -> nat {
    match token {
        Token::Open(header) => match parse_tag_spec(header) {
            Ok(_) => level + 1,
            Err(_) => level,
        },
        _ => level,
    }
}

/// The deepest nesting of tags that the source reaches from index `i` on, where
/// `level` elements are open at `i`.
pub open spec fn nesting_from(s: Seq<char>, i: int, level: nat) -> nat
    decreases s.len() - i,
{
    if 0 <= i < s.len() {
        proof {
            lemma_token_at(s, i);
        }
        match token_at(s, i) {
            Ok((token, next)) => greater(
                level_within(token, level),
                nesting_from(s, next, level_after(token, level)),
            ),
            Err(_) => level,
        }
    } else {
        level
    }
}

/// The depth that the first `n` open elements have reached: the `k`-th of them
/// stands at level `k`, above the children it has so far.
pub open spec fn open_depth(open: Seq<ElementModel>, n: nat) -> nat
    decreases n,
{
    if 0 < n <= open.len() {
        greater(open_depth(open, (n - 1) as nat), n + forest_depth(open[n - 1].children))
    } else {
        0
    }
}

/// The depth that a state has reached.
pub open spec fn state_depth(state: ParseState) -> nat {
    greater(forest_depth(state.done), open_depth(state.open, state.open.len()))
}

/// The depth of the first nodes of a forest is theirs alone.
proof fn lemma_depth_prefix(a: Seq<NodeModel>, b: Seq<NodeModel>, n: nat)
    requires
        n <= a.len(),
        n <= b.len(),
        forall|k: int| 0 <= k < n ==> a[k] == b[k],
    ensures
        depth_of_first(a, n) == depth_of_first(b, n),
    decreases n,
{
    if n > 0 {
        lemma_depth_prefix(a, b, (n - 1) as nat);
    }
}

/// The depth of the first open elements is theirs alone.
proof fn lemma_open_depth_prefix(a: Seq<ElementModel>, b: Seq<ElementModel>, n: nat)
    requires
        n <= a.len(),
        n <= b.len(),
        forall|k: int| 0 <= k < n ==> a[k] == b[k],
    ensures
        open_depth(a, n) == open_depth(b, n),
    decreases n,
{
    if n > 0 {
        lemma_open_depth_prefix(a, b, (n - 1) as nat);
    }
}

/// One more node makes a forest as deep as the deeper of the two.
proof fn lemma_depth_push(forest: Seq<NodeModel>, node: NodeModel)
    ensures
        forest_depth(forest.push(node)) == greater(forest_depth(forest), node_depth(node)),
{
    lemma_depth_prefix(forest.push(node), forest, forest.len());
}

/// A node that is handed on stands below the elements that are open.
proof fn lemma_attach_depth(state: ParseState, node: NodeModel)
    ensures
        state_depth(state.attach(node)) == greater(
            state_depth(state),
            state.open.len() + node_depth(node),
        ),
{
    let after = state.attach(node);
    if state.open.len() > 0 {
        let n = state.open.len();
        lemma_open_depth_prefix(after.open, state.open, (n - 1) as nat);
        lemma_depth_push(state.open[n - 1].children, node);
    } else {
        lemma_depth_push(state.done, node);
    }
}

/// Reading a token opens or closes as the token says, and takes the state as deep
/// as the token stands.
proof fn lemma_accept_depth(state: ParseState, token: Token)
    ensures
        state.accept(token) matches Ok(after) ==> after.open.len() == level_after(
            token,
            state.open.len(),
        ) && greater(state_depth(after), after.open.len()) == greater(
            state_depth(state),
            level_within(token, state.open.len()),
        ),
{
    if let Ok(after) = state.accept(token) {
        let n = state.open.len();
        lemma_open_depth_level(state.open, n);
        match token {
            Token::Comment => {},
            Token::Text(text) => {
                if text.len() > 0 {
                    lemma_attach_depth(state, NodeModel::Text(text));
                }
            },
            Token::Close(name) => {
                let top = state.open.last();
                let below = ParseState { open: state.open.drop_last(), done: state.done };
                lemma_attach_depth(below, NodeModel::Element(top));
                lemma_open_depth_prefix(below.open, state.open, (n - 1) as nat);
                lemma_open_depth_level(below.open, (n - 1) as nat);
            },
            Token::Open(header) => {
                lemma_parse_tag_no_children(header);
                let (el, self_closing) = parse_tag_spec(header)->Ok_0;
                if self_closing {
                    lemma_attach_depth(state, NodeModel::Element(el));
                } else {
                    lemma_open_depth_prefix(after.open, state.open, n);
                }
            },
        }
    }
}

/// The first `n` open elements reach level `n` at least.
proof fn lemma_open_depth_level(open: Seq<ElementModel>, n: nat)
    requires
        n <= open.len(),
    ensures
        open_depth(open, n) >= n,
{
}

/// A parsed forest is as deep as the state has reached or the rest of the source
/// nests, whichever is deeper.
proof fn lemma_parse_from_depth(s: Seq<char>, i: int, state: ParseState)
    requires
        0 <= i,
    ensures
        parse_from(s, i, state) matches Ok(forest) ==> forest_depth(forest) == greater(
            state_depth(state),
            nesting_from(s, i, state.open.len()),
        ),
    decreases s.len() - i,
{
    if i < s.len() {
        lemma_token_at(s, i);
        if let Ok((token, next)) = token_at(s, i) {
            lemma_accept_depth(state, token);
            if let Ok(after) = state.accept(token) {
                lemma_parse_from_depth(s, next, after);
                lemma_nesting_level(s, next, after.open.len());
            }
        }
    }
}

/// The nesting from a position on is at least the level at that position.
proof fn lemma_nesting_level(s: Seq<char>, i: int, level: nat)
    requires
        0 <= i,
    ensures
        nesting_from(s, i, level) >= level,
    decreases s.len() - i,
{
    if i < s.len() {
        lemma_token_at(s, i);
        if let Ok((token, next)) = token_at(s, i) {
            lemma_nesting_level(s, next, level_after(token, level));
        }
    }
}

/// The elements of a parsed forest nest exactly as deep as the tags of its
/// source.
pub proof fn lemma_depth_is_nesting(s: Seq<char>)
    ensures
        parse_spec(s) matches Ok(forest) ==> forest_depth(forest) == nesting_from(s, 0, 0),
{
    lemma_parse_from_depth(s, 0, ParseState::start());
}

} // verus!
