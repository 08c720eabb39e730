//! The syntax tree of a message and the scanner that builds it.

use vstd::prelude::*;
use vstd::string::StringSliceAdditionalSpecFns;
use vstd::utf8::*;

use crate::entity::scheme_at;
use crate::literal::NEWLINE;
use crate::matcher::{
    apply_parsers, apply_parsers_at, is_leaf_kind, is_markup, lemma_apply_parsers_bounds,
    lemma_apply_parsers_kinds, lemma_apply_parsers_opening, mark_of, Found, Mark,
};
use crate::text::{
    bytes_of, char_end, in_reach, lemma_ascii_boundary, lemma_char_end, lemma_occurs_byte,
    lemma_text, length, lit, next_char, occurs, slice, starts_at, tail,
};

verus! {

pub const BACKSLASH: u8 = 92;

/// The shrug emote, which is kept as it stands.
pub const SHRUG: &'static str = "\u{af}\\_(\u{30c4})_/\u{af}";

/// One element of a parsed message.
#[derive(Debug, PartialEq)]
pub enum Expression<'a> {
    Text(&'a str),
    CustomEmoji(&'a str, String),
    User(&'a str),
    Role(&'a str),
    Channel(&'a str),
    Hyperlink(&'a str, &'a str),
    MultilineCode(&'a str),
    InlineCode(&'a str),
    Blockquote(Vec<Expression<'a>>),
    Spoiler(Vec<Expression<'a>>),
    Underline(Vec<Expression<'a>>),
    Strikethrough(Vec<Expression<'a>>),
    Bold(Vec<Expression<'a>>),
    Italics(Vec<Expression<'a>>),
    Newline,
}

/// The mathematical model of an `Expression`: the same tree, with characters
/// for strings and sequences for vectors.
pub enum Node {
    Text(Seq<char>),
    CustomEmoji(Seq<char>, Seq<char>),
    User(Seq<char>),
    Role(Seq<char>),
    Channel(Seq<char>),
    Hyperlink(Seq<char>, Seq<char>),
    MultilineCode(Seq<char>),
    InlineCode(Seq<char>),
    Blockquote(Seq<Node>),
    Spoiler(Seq<Node>),
    Underline(Seq<Node>),
    Strikethrough(Seq<Node>),
    Bold(Seq<Node>),
    Italics(Seq<Node>),
    Newline,
}

/// The kinds of node that hold children.
#[derive(Clone, Copy, Debug, PartialEq, Eq, Structural)]
pub enum Wrap {
    Blockquote,
    Spoiler,
    Underline,
    Strikethrough,
    Bold,
    Italics,
}

/// The container node of kind `kind` around `children`.
pub open spec fn wrap_node(kind: Wrap, children: Seq<Node>) -> Node {
    match kind {
        Wrap::Blockquote => Node::Blockquote(children),
        Wrap::Spoiler => Node::Spoiler(children),
        Wrap::Underline => Node::Underline(children),
        Wrap::Strikethrough => Node::Strikethrough(children),
        Wrap::Bold => Node::Bold(children),
        Wrap::Italics => Node::Italics(children),
    }
}

/// The model of one expression.
pub open spec fn node_of(e: Expression) -> Node
    decreases e,
{
    match e {
        Expression::Text(text) => Node::Text(text@),
        Expression::CustomEmoji(name, id) => Node::CustomEmoji(name@, id@),
        Expression::User(id) => Node::User(id@),
        Expression::Role(id) => Node::Role(id@),
        Expression::Channel(id) => Node::Channel(id@),
        Expression::Hyperlink(label, target) => Node::Hyperlink(label@, target@),
        Expression::MultilineCode(raw) => Node::MultilineCode(raw@),
        Expression::InlineCode(raw) => Node::InlineCode(raw@),
        Expression::Blockquote(c) => Node::Blockquote(
            Seq::new(c@.len(), |i: int| if 0 <= i < c@.len() { node_of(c@[i]) } else { Node::Newline }),
        ),
        Expression::Spoiler(c) => Node::Spoiler(
            Seq::new(c@.len(), |i: int| if 0 <= i < c@.len() { node_of(c@[i]) } else { Node::Newline }),
        ),
        Expression::Underline(c) => Node::Underline(
            Seq::new(c@.len(), |i: int| if 0 <= i < c@.len() { node_of(c@[i]) } else { Node::Newline }),
        ),
        Expression::Strikethrough(c) => Node::Strikethrough(
            Seq::new(c@.len(), |i: int| if 0 <= i < c@.len() { node_of(c@[i]) } else { Node::Newline }),
        ),
        Expression::Bold(c) => Node::Bold(
            Seq::new(c@.len(), |i: int| if 0 <= i < c@.len() { node_of(c@[i]) } else { Node::Newline }),
        ),
        Expression::Italics(c) => Node::Italics(
            Seq::new(c@.len(), |i: int| if 0 <= i < c@.len() { node_of(c@[i]) } else { Node::Newline }),
        ),
        Expression::Newline => Node::Newline,
    }
}

/// No text node in the tree under `node` is empty.
pub open spec fn holds_text(node: Node) -> bool
    decreases node,
{
    match node {
        Node::Text(text) => text.len() > 0,
        Node::Blockquote(c) => forall|i: int| 0 <= i < c.len() ==> holds_text(#[trigger] c[i]),
        Node::Spoiler(c) => forall|i: int| 0 <= i < c.len() ==> holds_text(#[trigger] c[i]),
        Node::Underline(c) => forall|i: int| 0 <= i < c.len() ==> holds_text(#[trigger] c[i]),
        Node::Strikethrough(c) => forall|i: int| 0 <= i < c.len() ==> holds_text(#[trigger] c[i]),
        Node::Bold(c) => forall|i: int| 0 <= i < c.len() ==> holds_text(#[trigger] c[i]),
        Node::Italics(c) => forall|i: int| 0 <= i < c.len() ==> holds_text(#[trigger] c[i]),
        _ => true,
    }
}

/// No text node in the trees under `nodes` is empty.
pub open spec fn all_hold_text(nodes: Seq<Node>) -> bool {
    forall|i: int| 0 <= i < nodes.len() ==> holds_text(#[trigger] nodes[i])
}

/// The model of a sequence of expressions.
pub open spec fn nodes_of(items: Seq<Expression>) -> Seq<Node> {
    Seq::new(items.len(), |i: int| node_of(items[i]))
}

impl<'a> View for Expression<'a> {
    type V = Node;

    open spec fn view(&self) -> Node {
        node_of(*self)
    }
}

/// The model of a container is its kind around the models of its children.
pub proof fn lemma_node_of_wrap(kind: Wrap, children: Vec<Expression>)
    ensures
        node_of(wrap_expression(kind, children)) == wrap_node(kind, nodes_of(children@)),
{
    let c = children;
    let node = node_of(wrap_expression(kind, c));
    assert(children_of(node) =~= nodes_of(c@));
}

/// The children of a container node; none for a leaf.
pub open spec fn children_of(node: Node) -> Seq<Node> {
    match node {
        Node::Blockquote(c) => c,
        Node::Spoiler(c) => c,
        Node::Underline(c) => c,
        Node::Strikethrough(c) => c,
        Node::Bold(c) => c,
        Node::Italics(c) => c,
        _ => Seq::empty(),
    }
}

/// The container expression of kind `kind` around `children`, as a value of
/// the model's world.
pub open spec fn wrap_expression<'a>(kind: Wrap, children: Vec<Expression<'a>>) -> Expression<'a> {
    match kind {
        Wrap::Blockquote => Expression::Blockquote(children),
        Wrap::Spoiler => Expression::Spoiler(children),
        Wrap::Underline => Expression::Underline(children),
        Wrap::Strikethrough => Expression::Strikethrough(children),
        Wrap::Bold => Expression::Bold(children),
        Wrap::Italics => Expression::Italics(children),
    }
}

/// Builds the container of kind `kind` around `children`.
pub fn wrap<'a>(kind: Wrap, children: Vec<Expression<'a>>) -> (e: Expression<'a>)
    ensures
        e == wrap_expression(kind, children),
        node_of(e) == wrap_node(kind, nodes_of(children@)),
{
    proof {
        lemma_node_of_wrap(kind, children);
    }
    match kind {
        Wrap::Blockquote => Expression::Blockquote(children),
        Wrap::Spoiler => Expression::Spoiler(children),
        Wrap::Underline => Expression::Underline(children),
        Wrap::Strikethrough => Expression::Strikethrough(children),
        Wrap::Bold => Expression::Bold(children),
        Wrap::Italics => Expression::Italics(children),
    }
}

/// What the scanner meets at the start of a text that is not plain text.
pub enum Step {
    /// A line break.
    Newline,
    /// Bytes that become a text node as they are: the shrug emote, or the
    /// character behind a backslash.
    Verbatim(Seq<u8>),
    /// What the matchers found.
    Match(Mark),
}

/// What begins at the start of `t`, and how many bytes it covers: a newline;
/// else the shrug emote; else a backslash and the character behind it; else
/// what the matchers find, a block quote among them only where
/// `allow_blockquote`.
#[verifier::opaque]
pub open spec fn event_at(t: Seq<u8>, allow_blockquote: bool, md_hyperlinks: bool) -> Option<
    (Step, int),
> {
    if t.len() == 0 {
        None
    } else if t[0] == NEWLINE {
        Some((Step::Newline, 1))
    } else if occurs(t, 0, lit(SHRUG)) {
        Some((Step::Verbatim(lit(SHRUG)), lit(SHRUG).len() as int))
    } else if t[0] == BACKSLASH && t.len() > 1 {
        Some((Step::Verbatim(t.subrange(1, char_end(t, 2))), char_end(t, 2)))
    } else {
        match apply_parsers_at(t, allow_blockquote, md_hyperlinks) {
            Some((mark, n)) => Some((Step::Match(mark), n)),
            None => None,
        }
    }
}

/// The first offset at or after `from` at which a character starts and
/// something other than plain text begins, with what begins there. A block
/// quote can begin at offset 0 alone, and only where `allow_blockquote`.
pub open spec fn next_event(t: Seq<u8>, from: int, allow_blockquote: bool, md_hyperlinks: bool)
    -> Option<(int, Step, int)>
    decreases t.len() - from,
{
    if from < 0 || from >= t.len() {
        None
    } else if is_continuation_byte(t[from]) {
        next_event(t, from + 1, allow_blockquote, md_hyperlinks)
    } else {
        match event_at(t.skip(from), allow_blockquote && from == 0, md_hyperlinks) {
            Some((step, n)) => Some((from, step, n)),
            None => next_event(t, from + 1, allow_blockquote, md_hyperlinks),
        }
    }
}

/// Whether a block quote may begin behind `step`: behind a newline, and
/// behind a block quote, which ends with its line.
pub open spec fn quote_after(step: Step) -> bool {
    match step {
        Step::Newline => true,
        Step::Match(Mark::Wrapped(Wrap::Blockquote, _)) => true,
        _ => false,
    }
}

/// Plain text as nodes: one text node, or none for no text.
pub open spec fn plain(t: Seq<u8>) -> Seq<Node> {
    if t.len() == 0 {
        Seq::empty()
    } else {
        seq![Node::Text(decode_utf8(t))]
    }
}

/// The tree of the text `t`.
///
/// Up to the first event the text is plain. The event gives one node: a
/// container holds the tree of its body, scanned with block quotes not
/// allowed at its start. The text behind the event is scanned in the same
/// way.
pub open spec fn scan(t: Seq<u8>, allow_blockquote: bool, md_hyperlinks: bool) -> Seq<Node>
    decreases t.len(),
{
    match next_event(t, 0, allow_blockquote, md_hyperlinks) {
        None => plain(t),
        Some((at, step, n)) => {
            proof {
                lemma_next_event_bounds(t, 0, allow_blockquote, md_hyperlinks);
            }
            let node = match step {
                Step::Newline => Node::Newline,
                Step::Verbatim(bytes) => Node::Text(decode_utf8(bytes)),
                Step::Match(Mark::Leaf(node)) => node,
                Step::Match(Mark::Wrapped(kind, body)) => wrap_node(
                    kind,
                    scan(body, false, md_hyperlinks),
                ),
            };
            plain(t.take(at)).push(node) + scan(t.skip(at + n), quote_after(step), md_hyperlinks)
        },
    }
}

/// The node that a step gives: a container holds the tree of its body.
pub open spec fn step_node(step: Step, md_hyperlinks: bool) -> Node {
    match step {
        Step::Newline => Node::Newline,
        Step::Verbatim(bytes) => Node::Text(decode_utf8(bytes)),
        Step::Match(Mark::Leaf(node)) => node,
        Step::Match(Mark::Wrapped(kind, body)) => wrap_node(kind, scan(body, false, md_hyperlinks)),
    }
}

/// The tree of a text with an event: the plain text before it, its node, and
/// the tree of the text behind it.
pub proof fn lemma_scan_step(
    t: Seq<u8>,
    allow_blockquote: bool,
    md_hyperlinks: bool,
    at: int,
    step: Step,
    n: int,
)
    requires
        next_event(t, 0, allow_blockquote, md_hyperlinks) == Some((at, step, n)),
    ensures
        scan(t, allow_blockquote, md_hyperlinks) == plain(t.take(at)).push(
            step_node(step, md_hyperlinks),
        ) + scan(t.skip(at + n), quote_after(step), md_hyperlinks),
{
}

/// The tree of a text without an event is the text.
pub proof fn lemma_scan_plain(t: Seq<u8>, allow_blockquote: bool, md_hyperlinks: bool)
    requires
        next_event(t, 0, allow_blockquote, md_hyperlinks) is None,
    ensures
        scan(t, allow_blockquote, md_hyperlinks) == plain(t),
{
}

/// What covers a step is not empty and ends inside `t`, and the body of a
/// container is shorter than what covers it.
pub open spec fn step_bounds(t: Seq<u8>, step: Step, n: int) -> bool {
    &&& 0 < n <= t.len()
    &&& step matches Step::Match(Mark::Wrapped(_, body)) ==> body.len() < n
}

/// Every event keeps `step_bounds`.
pub proof fn lemma_event_bounds(t: Seq<u8>, allow_blockquote: bool, md_hyperlinks: bool)
    ensures
        event_at(t, allow_blockquote, md_hyperlinks) matches Some((step, n)) ==> step_bounds(
            t,
            step,
            n,
        ),
{
    reveal(event_at);
    if t.len() > 1 {
        lemma_char_end(t, 2);
    }
    lemma_apply_parsers_bounds(t, allow_blockquote, md_hyperlinks);
    reveal_strlit("\u{af}\\_(\u{30c4})_/\u{af}");
}

/// The shrug emote holds a backslash as its third byte.
pub proof fn lemma_shrug()
    ensures
        lit(SHRUG).len() > 2,
        lit(SHRUG)[2] == BACKSLASH,
{
    reveal_strlit("\u{af}\\_(\u{30c4})_/\u{af}");
    reveal_with_fuel(encode_utf8, 3);
    let chars = SHRUG@;
    let rest = chars.drop_first();
    assert(chars[0] as u32 == 0xAF);
    assert(rest[0] as u32 == 0x5C);
    assert(encode_scalar(0xAFu32).len() == 2);
    assert(leading_byte_width_1(0x5Cu32) == 0x5Cu8) by (bit_vector);
    assert(encode_scalar(0x5Cu32) == seq![0x5Cu8]);
    assert(encode_utf8(chars) == encode_scalar(0xAFu32) + (encode_scalar(0x5Cu32) + encode_utf8(
        rest.drop_first(),
    )));
}

/// An event begins with a byte of markup or with a scheme, or holds a
/// backslash as its third byte.
pub proof fn lemma_event_opening(t: Seq<u8>, allow_blockquote: bool, md_hyperlinks: bool)
    ensures
        event_at(t, allow_blockquote, md_hyperlinks) is Some ==> t.len() > 0 && (is_markup(t[0])
            || scheme_at(t) || (t.len() > 2 && t[2] == BACKSLASH)),
{
    reveal(event_at);
    lemma_shrug();
    lemma_apply_parsers_opening(t, allow_blockquote, md_hyperlinks);
    if occurs(t, 0, lit(SHRUG)) {
        lemma_occurs_byte(t, 0, lit(SHRUG), 2);
    }
}

/// The leaf of an event is an entity, a link or code, and an event is a
/// block quote only where one is allowed.
pub proof fn lemma_event_kinds(t: Seq<u8>, allow_blockquote: bool, md_hyperlinks: bool)
    ensures
        match event_at(t, allow_blockquote, md_hyperlinks) {
            Some((Step::Match(Mark::Leaf(node)), _)) => is_leaf_kind(node),
            Some((Step::Match(Mark::Wrapped(kind, _)), _)) => kind == Wrap::Blockquote
                ==> allow_blockquote,
            _ => true,
        },
{
    reveal(event_at);
    lemma_apply_parsers_kinds(t, allow_blockquote, md_hyperlinks);
}

/// The next event lies at or after `from` inside `t` and keeps `step_bounds`
/// on the text from there.
pub proof fn lemma_next_event_bounds(
    t: Seq<u8>,
    from: int,
    allow_blockquote: bool,
    md_hyperlinks: bool,
)
    ensures
        next_event(t, from, allow_blockquote, md_hyperlinks) matches Some((at, step, n)) ==> 0
            <= from <= at < t.len() && step_bounds(t.skip(at), step, n) && event_at(
            t.skip(at),
            allow_blockquote && at == 0,
            md_hyperlinks,
        ) == Some((step, n)),
    decreases t.len() - from,
{
    if from < 0 || from >= t.len() {
    } else if is_continuation_byte(t[from]) {
        lemma_next_event_bounds(t, from + 1, allow_blockquote, md_hyperlinks);
    } else {
        lemma_event_bounds(t.skip(from), allow_blockquote && from == 0, md_hyperlinks);
        lemma_next_event_bounds(t, from + 1, allow_blockquote, md_hyperlinks);
    }
}

/// What the scanner met: a line break, text to keep as it stands, or what a
/// matcher found.
pub enum Event<'a> {
    Newline,
    Verbatim(&'a str),
    Found(Found<'a>),
}

/// The model of an `Event`.
pub open spec fn step_of(event: Event) -> Step {
    match event {
        Event::Newline => Step::Newline,
        Event::Verbatim(text) => Step::Verbatim(text.spec_bytes()),
        Event::Found(found) => Step::Match(mark_of(found)),
    }
}

/// The model of what was met and the bytes covered.
pub open spec fn event_view(r: Option<(Event, usize)>) -> Option<(Step, int)> {
    match r {
        Some((event, n)) => Some((step_of(event), n as int)),
        None => None,
    }
}

/// The model of a vector with one more expression is the model of the vector
/// with one more node.
pub proof fn lemma_nodes_of_push(items: Seq<Expression>, e: Expression)
    ensures
        nodes_of(items.push(e)) == nodes_of(items).push(node_of(e)),
{
    assert(nodes_of(items.push(e)) =~= nodes_of(items).push(node_of(e)));
}

/// Looks at the start of `input` for something other than plain text.
pub fn event<'a>(input: &'a str, allow_blockquote: bool, md_hyperlinks: bool) -> (r: Option<
    (Event<'a>, usize),
>)
    ensures
        event_view(r) == event_at(input.spec_bytes(), allow_blockquote, md_hyperlinks),
        r matches Some((found, n)) ==> in_reach(input.spec_bytes(), n as int) && step_bounds(
            input.spec_bytes(),
            step_of(found),
            n as int,
        ),
        r matches Some((Event::Verbatim(text), _)) ==> text@.len() > 0,
        r matches Some((Event::Found(Found::Leaf(e)), _)) ==> is_leaf_kind(node_of(e)),
{
    let bytes = bytes_of(input);
    proof {
        reveal(event_at);
        lemma_text(input);
        lemma_event_kinds(input.spec_bytes(), allow_blockquote, md_hyperlinks);
        lemma_event_bounds(input.spec_bytes(), allow_blockquote, md_hyperlinks);
    }
    if bytes.len() == 0 {
        return None;
    }
    if bytes[0] == NEWLINE {
        proof {
            lemma_ascii_boundary(bytes@, 0);
        }
        return Some((Event::Newline, 1));
    }
    if starts_at(input, 0, SHRUG) {
        proof {
            reveal_strlit("\u{af}\\_(\u{30c4})_/\u{af}");
        }
        return Some((Event::Verbatim(SHRUG), length(SHRUG)));
    }
    if bytes[0] == BACKSLASH && bytes.len() > 1 {
        proof {
            lemma_ascii_boundary(bytes@, 0);
        }
        let end = next_char(input, 2);
        let next = slice(input, 1, end);
        proof {
            lemma_text(next);
        }
        return Some((Event::Verbatim(next), end));
    }
    match apply_parsers(allow_blockquote, md_hyperlinks, input) {
        Some((found, n)) => Some((Event::Found(found), n)),
        None => None,
    }
}

/// Appends `text` to `result` as a text node, unless it is empty.
pub fn flush<'a>(result: &mut Vec<Expression<'a>>, text: &'a str)
    ensures
        nodes_of(final(result)@) == nodes_of(old(result)@) + plain(text.spec_bytes()),
        all_hold_text(nodes_of(old(result)@)) ==> all_hold_text(nodes_of(final(result)@)),
{
    proof {
        lemma_text(text);
    }
    if length(text) > 0 {
        proof {
            lemma_nodes_of_push(result@, Expression::Text(text));
        }
        result.push(Expression::Text(text));
    }
    assert(nodes_of(result@) =~= nodes_of(old(result)@) + plain(text.spec_bytes()));
}

/// Scans `input` into its tree. `allow_blockquote` says whether a block
/// quote may begin at its start, `md_hyperlinks` whether links with a label
/// are looked for.
pub fn parse_internals<'a>(input: &'a str, allow_blockquote: bool, md_hyperlinks: bool) -> (result:
    Vec<Expression<'a>>)
    ensures
        nodes_of(result@) == scan(input.spec_bytes(), allow_blockquote, md_hyperlinks),
        all_hold_text(nodes_of(result@)),
    decreases input.spec_bytes().len(), 0nat,
{
    let mut result: Vec<Expression<'a>> = Vec::new();
    let mut rest: &'a str = input;
    let mut quote = allow_blockquote;
    let mut i: usize = 0;
    let ghost mut first = allow_blockquote;
    let ghost whole = scan(input.spec_bytes(), allow_blockquote, md_hyperlinks);
    assert(nodes_of(result@) + scan(rest.spec_bytes(), first, md_hyperlinks) =~= whole);
    loop
        invariant
            rest.spec_bytes().len() <= input.spec_bytes().len(),
            i <= rest.spec_bytes().len(),
            quote == (first && i == 0),
            next_event(rest.spec_bytes(), 0, first, md_hyperlinks) == next_event(
                rest.spec_bytes(),
                i as int,
                first,
                md_hyperlinks,
            ),
            nodes_of(result@) + scan(rest.spec_bytes(), first, md_hyperlinks) == whole,
            whole == scan(input.spec_bytes(), allow_blockquote, md_hyperlinks),
            all_hold_text(nodes_of(result@)),
        decreases rest.spec_bytes().len() - i,
    {
        let ghost t = rest.spec_bytes();
        proof {
            lemma_text(rest);
        }
        if i >= length(rest) {
            proof {
                lemma_scan_plain(t, first, md_hyperlinks);
            }
            flush(&mut result, rest);
            return result;
        }
        proof {
            is_char_boundary_iff_not_is_continuation_byte(t, i as int);
        }
        if !rest.is_char_boundary(i) {
            i = i + 1;
            continue;
        }
        let here = tail(rest, i);
        assert(here.spec_bytes() == t.skip(i as int));
        match event(here, quote, md_hyperlinks) {
            None => {
                i = i + 1;
                quote = false;
            },
            Some((found, n)) => {
                let ghost step = step_of(found);
                let ghost before = nodes_of(result@);
                let ghost node = step_node(step, md_hyperlinks);
                let ghost after = quote_after(step);
                let ghost behind = scan(t.skip(i + n), after, md_hyperlinks);
                proof {
                    lemma_scan_step(t, first, md_hyperlinks, i as int, step, n as int);
                    assert(t.subrange(0, i as int) == t.take(i as int));
                }
                flush(&mut result, slice(rest, 0, i));
                let ghost flushed = nodes_of(result@);
                match found {
                    Event::Newline => {
                        proof {
                            lemma_nodes_of_push(result@, Expression::Newline);
                        }
                        result.push(Expression::Newline);
                        quote = true;
                    },
                    Event::Verbatim(text) => {
                        proof {
                            lemma_text(text);
                            lemma_nodes_of_push(result@, Expression::Text(text));
                        }
                        result.push(Expression::Text(text));
                        quote = false;
                    },
                    Event::Found(Found::Leaf(e)) => {
                        proof {
                            lemma_nodes_of_push(result@, e);
                        }
                        result.push(e);
                        quote = false;
                    },
                    Event::Found(Found::Wrapped(kind, body)) => {
                        let children = parse_section(body, md_hyperlinks);
                        let e = wrap(kind, children);
                        proof {
                            lemma_nodes_of_push(result@, e);
                        }
                        result.push(e);
                        quote = match kind {
                            Wrap::Blockquote => true,
                            _ => false,
                        };
                    },
                }
                assert(nodes_of(result@) == flushed.push(node));
                assert(holds_text(node));
                assert(quote == after);
                rest = tail(here, n);
                proof {
                    assert(rest.spec_bytes() =~= t.skip(i + n));
                    assert(flushed.push(node) + behind =~= before + (plain(t.take(i as int)).push(
                        node,
                    ) + behind));
                    first = quote;
                }
                i = 0;
            },
        }
    }
}

/// Scans the body of a container: no block quote may begin at its start,
/// and links with a label are looked for where they are in the whole
/// message.
pub fn parse_section<'a>(input: &'a str, md_hyperlinks: bool) -> (result: Vec<Expression<'a>>)
    ensures
        nodes_of(result@) == scan(input.spec_bytes(), false, md_hyperlinks),
        all_hold_text(nodes_of(result@)),
    decreases input.spec_bytes().len(), 1nat,
{
    parse_internals(input, false, md_hyperlinks)
}

/// Parses a message into its tree. A block quote may begin at the start of
/// the message and behind every newline; links are URLs, as they stand or
/// between `<` and `>`.
pub fn parse<'a>(input: &'a str) -> (result: Vec<Expression<'a>>)
    ensures
        nodes_of(result@) == scan(input.spec_bytes(), true, false),
        all_hold_text(nodes_of(result@)),
{
    parse_internals(input, true, false)
}

/// Parses a message into its tree as `parse` does, and takes `[label](url)`
/// for a link too.
pub fn parse_with_md_hyperlinks<'a>(input: &'a str) -> (result: Vec<Expression<'a>>)
    ensures
        nodes_of(result@) == scan(input.spec_bytes(), true, true),
        all_hold_text(nodes_of(result@)),
{
    parse_internals(input, true, true)
}

} // verus!
