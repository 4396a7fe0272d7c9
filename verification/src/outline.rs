//! The outline of a document: its openings, texts and closings in the order in which
//! they are written. A source parses exactly into the forest whose outline it writes.

use crate::ast::{ElementModel, NodeModel};
use crate::parser::{lemma_token_at, parse_from, parse_spec, token_at, ParseState, Token};
use crate::structure::lemma_parse_tag_no_children;
use crate::tag::parse_tag_spec;
use vstd::prelude::*;

verus! {

/// What the outline of a document records.
pub enum Mark {
    /// An element opens. The mark holds the element with its attributes and
    /// without children.
    Open(ElementModel),
    /// A closing tag with this name.
    Close(Seq<char>),
    /// A text.
    Text(Seq<char>),
}

/// The element without its children.
pub open spec fn childless(el: ElementModel) -> ElementModel {
    ElementModel { children: Seq::empty(), ..el }
}

/// The outline of a node: a text is its own mark; an element is its opening, the
/// outline of its children, and its closing under the keyword of its kind.
pub open spec fn node_outline(node: NodeModel) -> Seq<Mark>
    decreases node, 0nat,
{
    match node {
        NodeModel::Text(text) => seq![Mark::Text(text)],
        NodeModel::Element(el) => seq![Mark::Open(childless(el))] + outline_of_first(
            el.children,
            el.children.len(),
        ) + seq![Mark::Close(el.tag.keyword())],
    }
}

/// The outlines of the first `n` nodes of `forest`, one behind the other.
pub open spec fn outline_of_first(forest: Seq<NodeModel>, n: nat) -> Seq<Mark>
    decreases forest, n,
{
    if 0 < n <= forest.len() {
        outline_of_first(forest, (n - 1) as nat) + node_outline(forest[n - 1])
    } else {
        seq![]
    }
}

/// The outline of a forest.
pub open spec fn forest_outline(forest: Seq<NodeModel>) -> Seq<Mark> {
    outline_of_first(forest, forest.len())
}

/// What a token adds to the outline of a source: for an opening tag the opening
/// of its element, followed by its closing if the tag closes itself; the name for
/// a closing tag; the text for a text that is not empty; nothing for a comment.
pub open spec fn token_outline(token: Token) -> Seq<Mark> {
    match token {
        Token::Open(header) => match parse_tag_spec(header) {
            Ok((el, self_closing)) => if self_closing {
                seq![Mark::Open(el), Mark::Close(el.tag.keyword())]
            } else {
                seq![Mark::Open(el)]
            },
            Err(_) => seq![],
        },
        Token::Close(name) => seq![Mark::Close(name)],
        Token::Text(text) => if text.len() > 0 {
            seq![Mark::Text(text)]
        } else {
            seq![]
        },
        Token::Comment => seq![],
    }
}

/// The outline of a source from index `i` on: the tags and texts that it writes,
/// in order.
pub open spec fn source_outline(s: Seq<char>, i: int) -> Seq<Mark>
    decreases s.len() - i,
{
    if 0 <= i < s.len() {
        proof {
            lemma_token_at(s, i);
        }
        match token_at(s, i) {
            Ok((token, next)) => token_outline(token) + source_outline(s, next),
            Err(_) => seq![],
        }
    } else {
        seq![]
    }
}

/// The outline of the first `n` open elements: for each its opening and the
/// outline of the children it has so far.
pub open spec fn open_outline(open: Seq<ElementModel>, n: nat) -> Seq<Mark>
    decreases n,
{
    if 0 < n <= open.len() {
        open_outline(open, (n - 1) as nat) + seq![Mark::Open(childless(open[n - 1]))]
            + forest_outline(open[n - 1].children)
    } else {
        seq![]
    }
}

/// The outline of what a state holds.
pub open spec fn state_outline(state: ParseState) -> Seq<Mark> {
    forest_outline(state.done) + open_outline(state.open, state.open.len())
}

/// The outline of the first nodes of a forest is theirs alone.
proof fn lemma_outline_prefix(a: Seq<NodeModel>, b: Seq<NodeModel>, n: nat)
    requires
        n <= a.len(),
        n <= b.len(),
        forall|k: int| 0 <= k < n ==> a[k] == b[k],
    ensures
        outline_of_first(a, n) == outline_of_first(b, n),
    decreases n,
{
    if n > 0 {
        lemma_outline_prefix(a, b, (n - 1) as nat);
    }
}

/// The outline of the first open elements is theirs alone.
proof fn lemma_open_outline_prefix(a: Seq<ElementModel>, b: Seq<ElementModel>, n: nat)
    requires
        n <= a.len(),
        n <= b.len(),
        forall|k: int| 0 <= k < n ==> a[k] == b[k],
    ensures
        open_outline(a, n) == open_outline(b, n),
    decreases n,
{
    if n > 0 {
        lemma_open_outline_prefix(a, b, (n - 1) as nat);
    }
}

/// One more node adds its outline to that of the forest.
proof fn lemma_outline_push(forest: Seq<NodeModel>, node: NodeModel)
    ensures
        forest_outline(forest.push(node)) == forest_outline(forest) + node_outline(node),
{
    lemma_outline_prefix(forest.push(node), forest, forest.len());
}

/// A node that is handed on adds its outline to that of the state.
proof fn lemma_attach_outline(state: ParseState, node: NodeModel)
    ensures
        state_outline(state.attach(node)) == state_outline(state) + node_outline(node),
{
    let after = state.attach(node);
    if state.open.len() > 0 {
        let n = state.open.len();
        lemma_open_outline_prefix(after.open, state.open, (n - 1) as nat);
        lemma_outline_push(state.open[n - 1].children, node);
        assert(state_outline(after) =~= state_outline(state) + node_outline(node));
    } else {
        lemma_outline_push(state.done, node);
        assert(state_outline(after) =~= state_outline(state) + node_outline(node));
    }
}

/// A token that is read adds its marks to the outline of the state.
proof fn lemma_accept_outline(state: ParseState, token: Token)
    ensures
        state.accept(token) matches Ok(after) ==> state_outline(after) == state_outline(state)
            + token_outline(token),
{
    if let Ok(after) = state.accept(token) {
        match token {
            Token::Comment => {
                assert(state_outline(after) =~= state_outline(state) + token_outline(token));
            },
            Token::Text(text) => {
                if text.len() > 0 {
                    lemma_attach_outline(state, NodeModel::Text(text));
                }
                assert(state_outline(after) =~= state_outline(state) + token_outline(token));
            },
            Token::Close(name) => {
                let n = state.open.len();
                let top = state.open.last();
                let below = ParseState { open: state.open.drop_last(), done: state.done };
                lemma_attach_outline(below, NodeModel::Element(top));
                lemma_open_outline_prefix(below.open, state.open, (n - 1) as nat);
                assert(state_outline(after) =~= state_outline(state) + token_outline(token));
            },
            Token::Open(header) => {
                lemma_parse_tag_no_children(header);
                let (el, self_closing) = parse_tag_spec(header)->Ok_0;
                assert(childless(el) == el) by {
                    assert(el.children =~= Seq::empty());
                }
                if self_closing {
                    lemma_attach_outline(state, NodeModel::Element(el));
                    assert(node_outline(NodeModel::Element(el)) =~= token_outline(token));
                } else {
                    let n = state.open.len();
                    lemma_open_outline_prefix(after.open, state.open, n);
                    assert(forest_outline(el.children) =~= seq![]);
                    assert(state_outline(after) =~= state_outline(state) + token_outline(token));
                }
            },
        }
    }
}

/// The outline of a parsed forest is that of the state, followed by what the rest
/// of the source writes.
proof fn lemma_parse_from_outline(s: Seq<char>, i: int, state: ParseState)
    requires
        0 <= i,
    ensures
        parse_from(s, i, state) matches Ok(forest) ==> forest_outline(forest) == state_outline(
            state,
        ) + source_outline(s, i),
    decreases s.len() - i,
{
    if i < s.len() {
        lemma_token_at(s, i);
        if let Ok((token, next)) = token_at(s, i) {
            lemma_accept_outline(state, token);
            if let Ok(after) = state.accept(token) {
                lemma_parse_from_outline(s, next, after);
                if let Ok(forest) = parse_from(s, i, state) {
                    assert(forest_outline(forest) =~= state_outline(state) + source_outline(s, i));
                }
            }
        }
    } else if let Ok(forest) = parse_from(s, i, state) {
        assert(forest_outline(forest) =~= state_outline(state) + source_outline(s, i));
    }
}

/// What a source that parses writes is the outline of its forest: each element
/// stands where its opening tag stands and holds what that tag says, each text
/// stands where it is written, and the closing tag that ends an element is the one
/// that answers its opening and carries the keyword of its kind.
pub proof fn lemma_parse_keeps_outline(s: Seq<char>)
    ensures
        parse_spec(s) matches Ok(forest) ==> forest_outline(forest) == source_outline(s, 0),
{
    lemma_parse_from_outline(s, 0, ParseState::start());
    if let Ok(forest) = parse_spec(s) {
        assert(state_outline(ParseState::start()) =~= seq![]);
        assert(forest_outline(forest) =~= source_outline(s, 0));
    }
}

/// Whether the source can be read from index `i` on: each token can, and each
/// header of an opening tag.
pub open spec fn readable(s: Seq<char>, i: int) -> bool
    decreases s.len() - i,
{
    if 0 <= i < s.len() {
        proof {
            lemma_token_at(s, i);
        }
        match token_at(s, i) {
            Ok((token, next)) => (token matches Token::Open(header) ==> parse_tag_spec(header) is Ok)
                && readable(s, next),
            Err(_) => false,
        }
    } else {
        true
    }
}

/// The state once `mark` is taken in, if it can be: an opening opens its element,
/// a text is handed on, and a closing closes the innermost open element, which has
/// to be there and to be of the kind that the closing names.
pub open spec fn take_mark(state: ParseState, mark: Mark) -> Option<ParseState> {
    match mark {
        Mark::Open(el) => Some(ParseState { open: state.open.push(el), done: state.done }),
        Mark::Text(text) => Some(state.attach(NodeModel::Text(text))),
        Mark::Close(name) => if state.open.len() > 0 && state.open.last().tag.keyword() == name {
            Some(
                ParseState { open: state.open.drop_last(), done: state.done }.attach(
                    NodeModel::Element(state.open.last()),
                ),
            )
        } else {
            None
        },
    }
}

/// The state once the first `n` of `marks` are taken in, if they can be.
pub open spec fn take_marks(state: ParseState, marks: Seq<Mark>, n: nat) -> Option<ParseState>
    decreases n,
{
    if 0 < n <= marks.len() {
        match take_marks(state, marks, (n - 1) as nat) {
            Some(before) => take_mark(before, marks[n - 1]),
            None => None,
        }
    } else {
        Some(state)
    }
}

/// The state once the first `n` nodes of `forest` are handed to it, one after the
/// other.
pub open spec fn attach_first(state: ParseState, forest: Seq<NodeModel>, n: nat) -> ParseState
    decreases n,
{
    if 0 < n <= forest.len() {
        attach_first(state, forest, (n - 1) as nat).attach(forest[n - 1])
    } else {
        state
    }
}

/// Nodes that are handed on become the next children of the innermost open
/// element, or the next nodes of the top level if none is open.
proof fn lemma_attach_first(state: ParseState, forest: Seq<NodeModel>, n: nat)
    requires
        n <= forest.len(),
    ensures
        attach_first(state, forest, n) == if state.open.len() > 0 {
            ParseState {
                open: state.open.update(
                    state.open.len() - 1,
                    ElementModel {
                        children: state.open.last().children + forest.take(n as int),
                        ..state.open.last()
                    },
                ),
                done: state.done,
            }
        } else {
            ParseState { open: state.open, done: state.done + forest.take(n as int) }
        },
    decreases n,
{
    if n > 0 {
        lemma_attach_first(state, forest, (n - 1) as nat);
        let before = attach_first(state, forest, (n - 1) as nat);
        let after = before.attach(forest[n - 1]);
        assert(forest.take(n as int) =~= forest.take(n - 1).push(forest[n - 1]));
        if state.open.len() > 0 {
            let top = state.open.last();
            assert(after.open.last().children =~= top.children + forest.take(n as int));
            assert(after.open =~= state.open.update(
                state.open.len() - 1,
                ElementModel { children: top.children + forest.take(n as int), ..top },
            ));
        } else {
            assert(after.done =~= state.done + forest.take(n as int));
        }
    } else {
        assert(forest.take(0) =~= Seq::empty());
        if state.open.len() > 0 {
            let top = state.open.last();
            assert(top.children + forest.take(0) =~= top.children);
            assert(state.open =~= state.open.update(
                state.open.len() - 1,
                ElementModel { children: top.children + forest.take(0), ..top },
            ));
        } else {
            assert(state.done + forest.take(0) =~= state.done);
        }
    }
}

/// Taking in two runs of marks, one behind the other, is taking in the first and
/// then, from where that leads, the second.
proof fn lemma_take_marks_append(state: ParseState, a: Seq<Mark>, b: Seq<Mark>, n: nat)
    requires
        n <= b.len(),
    ensures
        take_marks(state, a + b, a.len() + n) == match take_marks(state, a, a.len()) {
            Some(between) => take_marks(between, b, n),
            None => None,
        },
    decreases n,
{
    if n > 0 {
        lemma_take_marks_append(state, a, b, (n - 1) as nat);
        assert((a + b)[a.len() + n - 1] == b[n - 1]);
    } else {
        lemma_take_marks_prefix(state, a + b, a, a.len());
    }
}

/// Taking in the first marks of a run depends on them alone.
proof fn lemma_take_marks_prefix(state: ParseState, a: Seq<Mark>, b: Seq<Mark>, n: nat)
    requires
        n <= a.len(),
        n <= b.len(),
        forall|k: int| 0 <= k < n ==> a[k] == b[k],
    ensures
        take_marks(state, a, n) == take_marks(state, b, n),
    decreases n,
{
    if n > 0 {
        lemma_take_marks_prefix(state, a, b, (n - 1) as nat);
    }
}

/// Taking in the outline of a node hands the node on.
proof fn lemma_take_node(state: ParseState, node: NodeModel)
    ensures
        take_marks(state, node_outline(node), node_outline(node).len()) == Some(
            state.attach(node),
        ),
    decreases node, 0nat,
{
    match node {
        NodeModel::Text(text) => {
            let marks = node_outline(node);
            assert(take_marks(state, marks, 0) == Some(state));
        },
        NodeModel::Element(el) => {
            let head = seq![Mark::Open(childless(el))];
            let kids = forest_outline(el.children);
            let tail = seq![Mark::Close(el.tag.keyword())];
            let opened = ParseState { open: state.open.push(childless(el)), done: state.done };
            assert(take_marks(state, head, 0) == Some(state));
            assert(take_marks(state, head, 1) == Some(opened));
            lemma_take_forest(opened, el.children, el.children.len());
            lemma_take_marks_append(state, head, kids, kids.len());
            let filled = attach_first(opened, el.children, el.children.len());
            assert(take_marks(state, head + kids, (head + kids).len()) == Some(filled));
            lemma_attach_first(opened, el.children, el.children.len());
            assert(el.children.take(el.children.len() as int) =~= el.children);
            assert(childless(el).children + el.children =~= el.children);
            assert(filled.open.last() == el);
            assert(filled.open.drop_last() =~= state.open);
            assert(take_marks(filled, tail, 0) == Some(filled));
            assert(take_marks(filled, tail, 1) == Some(state.attach(node)));
            lemma_take_marks_append(state, head + kids, tail, 1);
        },
    }
}

/// Taking in the outline of the first `n` nodes of a forest hands them on, one
/// after the other.
proof fn lemma_take_forest(state: ParseState, forest: Seq<NodeModel>, n: nat)
    requires
        n <= forest.len(),
    ensures
        take_marks(
            state,
            outline_of_first(forest, n),
            outline_of_first(forest, n).len(),
        ) == Some(attach_first(state, forest, n)),
    decreases forest, n,
{
    if n > 0 {
        let before = outline_of_first(forest, (n - 1) as nat);
        let last = node_outline(forest[n - 1]);
        lemma_take_forest(state, forest, (n - 1) as nat);
        lemma_take_node(attach_first(state, forest, (n - 1) as nat), forest[n - 1]);
        lemma_take_marks_append(state, before, last, last.len());
    }
}

/// A forest is the one that its outline makes: taken in from the start, the
/// outline leaves nothing open and the forest done.
pub proof fn lemma_outline_makes_forest(forest: Seq<NodeModel>)
    ensures
        take_marks(ParseState::start(), forest_outline(forest), forest_outline(forest).len())
            == Some(ParseState { open: Seq::empty(), done: forest }),
{
    lemma_take_forest(ParseState::start(), forest, forest.len());
    lemma_attach_first(ParseState::start(), forest, forest.len());
    assert(Seq::<NodeModel>::empty() + forest.take(forest.len() as int) =~= forest);
}

/// Two forests with one outline are one forest.
pub proof fn lemma_outline_is_one_to_one(a: Seq<NodeModel>, b: Seq<NodeModel>)
    requires
        forest_outline(a) == forest_outline(b),
    ensures
        a == b,
{
    lemma_outline_makes_forest(a);
    lemma_outline_makes_forest(b);
}

/// Reading a token is taking in the marks that it adds to the outline.
proof fn lemma_accept_takes_marks(state: ParseState, token: Token)
    requires
        token matches Token::Open(header) ==> parse_tag_spec(header) is Ok,
    ensures
        take_marks(state, token_outline(token), token_outline(token).len()) == match state.accept(
            token,
        ) {
            Ok(after) => Some(after),
            Err(_) => None,
        },
{
    let marks = token_outline(token);
    assert(take_marks(state, marks, 0) == Some(state));
    match token {
        Token::Comment => {},
        Token::Text(_) => {},
        Token::Close(_) => {},
        Token::Open(header) => {
            lemma_parse_tag_no_children(header);
            let (el, self_closing) = parse_tag_spec(header)->Ok_0;
            if self_closing {
                let opened = ParseState { open: state.open.push(el), done: state.done };
                assert(take_marks(state, marks, 1) == Some(opened));
                assert(opened.open.drop_last() =~= state.open);
            }
        },
    }
}

/// Parsing a source that can be read is taking in the marks that it writes, and
/// succeeds where that leaves nothing open.
proof fn lemma_parse_from_takes_marks(s: Seq<char>, i: int, state: ParseState)
    requires
        0 <= i,
        readable(s, i),
    ensures
        parse_from(s, i, state) matches Ok(forest) <==> (take_marks(
            state,
            source_outline(s, i),
            source_outline(s, i).len(),
        ) matches Some(last) && last.open.len() == 0),
        parse_from(s, i, state) matches Ok(forest) ==> take_marks(
            state,
            source_outline(s, i),
            source_outline(s, i).len(),
        )->Some_0.done == forest,
    decreases s.len() - i,
{
    if i < s.len() {
        lemma_token_at(s, i);
        let (token, next) = token_at(s, i)->Ok_0;
        let head = token_outline(token);
        let rest = source_outline(s, next);
        lemma_accept_takes_marks(state, token);
        lemma_take_marks_append(state, head, rest, rest.len());
        if let Ok(after) = state.accept(token) {
            lemma_parse_from_takes_marks(s, next, after);
        }
    } else {
        assert(take_marks(state, source_outline(s, i), 0) == Some(state));
    }
}

/// A source that parses can be read.
proof fn lemma_parse_from_readable(s: Seq<char>, i: int, state: ParseState)
    requires
        0 <= i,
        parse_from(s, i, state) is Ok,
    ensures
        readable(s, i),
    decreases s.len() - i,
{
    if i < s.len() {
        lemma_token_at(s, i);
        let (token, next) = token_at(s, i)->Ok_0;
        lemma_parse_from_readable(s, next, state.accept(token)->Ok_0);
    }
}

/// A source parses into a forest exactly where it can be read and writes the
/// outline of that forest; and no other forest has that outline.
pub proof fn lemma_parse_is_the_forest_of_the_outline(s: Seq<char>, forest: Seq<NodeModel>)
    ensures
        parse_spec(s) == Ok::<Seq<NodeModel>, Seq<char>>(forest) <==> readable(s, 0)
            && source_outline(s, 0) == forest_outline(forest),
{
    if parse_spec(s) == Ok::<Seq<NodeModel>, Seq<char>>(forest) {
        lemma_parse_from_readable(s, 0, ParseState::start());
        lemma_parse_keeps_outline(s);
    }
    if readable(s, 0) && source_outline(s, 0) == forest_outline(forest) {
        lemma_outline_makes_forest(forest);
        lemma_parse_from_takes_marks(s, 0, ParseState::start());
    }
}

} // verus!
