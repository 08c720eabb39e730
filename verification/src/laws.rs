//! Laws of the library: what holds of every text and of every tree.

use vstd::prelude::*;
use vstd::utf8::*;

use crate::convertor::{html, html_node, isolated, lemma_html_one, lone_emoji};
use crate::entity::scheme_at;
use crate::literal::{lemma_brackets, lemma_schemes, NEWLINE};
use crate::markup::{emoji_markup, escaped, escaped_char};
use crate::matcher::{is_markup, Mark};
use crate::parser::{
    event_at, lemma_event_kinds, lemma_event_opening, lemma_next_event_bounds, lemma_scan_plain,
    lemma_scan_step, next_event, plain, quote_after, scan, step_node, Node, Step, BACKSLASH,
};
use crate::span::{blockquote_at, delimited_at};
use crate::text::{
    find, lemma_find, lemma_occurs_behind, lemma_occurs_byte, lemma_occurs_part, lemma_run_end,
    lit, occurs, run_end,
};

verus! {

/// A character that would open or close markup in HTML, or end an attribute.
pub open spec fn is_reserved(c: char) -> bool {
    c == '<' || c == '>' || c == '"' || c == '\''
}

/// Escaped text holds no `<`, no `>` and no quote, whatever the text was.
pub proof fn law_escaped_text_is_inert(text: Seq<char>)
    ensures
        forall|i: int| 0 <= i < escaped(text).len() ==> !is_reserved(#[trigger] escaped(text)[i]),
    decreases text.len(),
{
    if text.len() > 0 {
        law_escaped_text_is_inert(text.drop_last());
        reveal_strlit("&amp;");
        reveal_strlit("&lt;");
        reveal_strlit("&gt;");
        reveal_strlit("&quot;");
        reveal_strlit("&#x27;");
        let head = escaped(text.drop_last());
        let last = escaped_char(text.last());
        assert forall|i: int| 0 <= i < last.len() implies !is_reserved(#[trigger] last[i]) by {}
        assert forall|i: int| 0 <= i < escaped(text).len() implies !is_reserved(
            #[trigger] escaped(text)[i],
        ) by {
            if i >= head.len() {
                assert(escaped(text)[i] == last[i - head.len()]);
            }
        }
    }
}

/// A message that is one text node renders as the escaped text, so none of
/// its characters reaches the HTML as markup.
pub proof fn law_text_renders_escaped(text: Seq<char>, enlarged: bool)
    ensures
        html(seq![Node::Text(text)], enlarged) == escaped(text),
        forall|i: int|
            0 <= i < html(seq![Node::Text(text)], enlarged).len() ==> !is_reserved(
                #[trigger] html(seq![Node::Text(text)], enlarged)[i],
            ),
{
    lemma_html_one(Node::Text(text), enlarged);
    law_escaped_text_is_inert(text);
}

/// The body between two delimiters holds no closing delimiter: the body ends
/// at the first one.
pub proof fn law_delimited_body_is_shortest(t: Seq<u8>, open: Seq<u8>, close: Seq<u8>)
    requires
        close.len() > 0,
    ensures
        delimited_at(t, open, close) matches Some((body, n)) ==> forall|j: int|
            !occurs(body, j, close),
{
    match delimited_at(t, open, close) {
        Some((body, n)) => {
            let from = open.len() as int;
            lemma_find(t, from, close);
            let k = find(t, from, close)->0;
            assert forall|j: int| !occurs(body, j, close) by {
                if occurs(body, j, close) {
                    assert(t.subrange(from + j, from + j + close.len()) =~= body.subrange(
                        j,
                        j + close.len(),
                    ));
                    assert(occurs(t, from + j, close));
                }
            }
        },
        None => {},
    }
}

/// A message of one custom emoji is isolated, and its emoji is shown larger.
pub proof fn law_lone_emoji_is_enlarged(name: Seq<char>, id: Seq<char>)
    ensures
        isolated(seq![Node::CustomEmoji(name, id)]),
        html(seq![Node::CustomEmoji(name, id)], isolated(seq![Node::CustomEmoji(name, id)]))
            == emoji_markup(name, id, true),
{
    lemma_html_one(Node::CustomEmoji(name, id), true);
}

/// A message stays isolated when blank text and custom emoji join it, and
/// only then.
pub proof fn law_isolation_grows_with_blank_text(nodes: Seq<Node>, node: Node)
    ensures
        isolated(nodes.push(node)) == (isolated(nodes) && lone_emoji(node)),
{
    let longer = nodes.push(node);
    if isolated(longer) {
        assert(longer[nodes.len() as int] == node);
        assert forall|i: int| 0 <= i < nodes.len() implies lone_emoji(#[trigger] nodes[i]) by {
            assert(longer[i] == nodes[i]);
        }
    }
}

/// A message with text that is not blank, or with anything but text and
/// custom emoji, is not isolated: none of its emoji is shown larger.
pub proof fn law_company_prevents_enlargement(nodes: Seq<Node>, at: int)
    requires
        0 <= at < nodes.len(),
        !lone_emoji(nodes[at]),
    ensures
        !isolated(nodes),
        forall|name: Seq<char>, id: Seq<char>|
            #[trigger] html_node(Node::CustomEmoji(name, id), isolated(nodes)) == emoji_markup(
                name,
                id,
                false,
            ),
{
}

/// A text without markup apart from newlines: none of its other bytes can
/// begin markup, and `://` stands nowhere in it.
pub open spec fn unmarked(t: Seq<u8>) -> bool {
    &&& forall|i: int| 0 <= i < t.len() ==> !is_markup(#[trigger] t[i]) || t[i] == NEWLINE
    &&& forall|i: int| !occurs(t, i, lit("://"))
}

/// The tree of lines of plain text: each line that is not empty is a text
/// node, and each newline is a node.
pub open spec fn plain_lines(t: Seq<u8>) -> Seq<Node>
    decreases t.len(),
{
    let end = run_end(t, 0, NEWLINE);
    if 0 <= end < t.len() {
        plain(t.take(end)).push(Node::Newline) + plain_lines(t.skip(end + 1))
    } else {
        plain(t)
    }
}

/// What is left of an unmarked text behind an offset is unmarked.
pub proof fn lemma_unmarked_behind(t: Seq<u8>, from: int)
    requires
        unmarked(t),
        0 <= from <= t.len(),
    ensures
        unmarked(t.skip(from)),
{
    let rest = t.skip(from);
    assert forall|i: int| 0 <= i < rest.len() implies !is_markup(#[trigger] rest[i]) || rest[i]
        == NEWLINE by {
        assert(rest[i] == t[from + i]);
    }
    assert forall|i: int| !occurs(rest, i, lit("://")) by {
        if occurs(rest, i, lit("://")) {
            lemma_occurs_behind(t, from, i, lit("://"));
        }
    }
}

/// In an unmarked text the next event is the next newline.
pub proof fn lemma_next_event_in_unmarked(
    t: Seq<u8>,
    from: int,
    allow_blockquote: bool,
    md_hyperlinks: bool,
)
    requires
        unmarked(t),
        0 <= from <= t.len(),
    ensures
        next_event(t, from, allow_blockquote, md_hyperlinks) == if run_end(t, from, NEWLINE)
            < t.len() {
            Some((run_end(t, from, NEWLINE), Step::Newline, 1int))
        } else {
            None
        },
    decreases t.len() - from,
{
    if from < t.len() {
        let here = t.skip(from);
        let allowed = allow_blockquote && from == 0;
        assert(here[0] == t[from]);
        if t[from] == NEWLINE {
            reveal(event_at);
        } else {
            lemma_next_event_in_unmarked(t, from + 1, allow_blockquote, md_hyperlinks);
            if event_at(here, allowed, md_hyperlinks) is Some {
                lemma_event_opening(here, allowed, md_hyperlinks);
                lemma_schemes();
                if here.len() > 2 && here[2] == BACKSLASH {
                    assert(here[2] == t[from + 2]);
                } else {
                    assert(scheme_at(here));
                    if occurs(here, 0, lit("http://")) {
                        lemma_occurs_part(here, 0, lit("http://"), 4, 7);
                        assert(lit("http://").subrange(4, 7) =~= lit("://"));
                        lemma_occurs_behind(t, from, 4, lit("://"));
                    } else if occurs(here, 0, lit("https://")) {
                        lemma_occurs_part(here, 0, lit("https://"), 5, 8);
                        assert(lit("https://").subrange(5, 8) =~= lit("://"));
                        lemma_occurs_behind(t, from, 5, lit("://"));
                    } else if occurs(here, 0, lit("ftp://")) {
                        lemma_occurs_part(here, 0, lit("ftp://"), 3, 6);
                        assert(lit("ftp://").subrange(3, 6) =~= lit("://"));
                        lemma_occurs_behind(t, from, 3, lit("://"));
                    } else {
                        lemma_occurs_part(here, 0, lit("file://"), 4, 7);
                        assert(lit("file://").subrange(4, 7) =~= lit("://"));
                        lemma_occurs_behind(t, from, 4, lit("://"));
                    }
                }
            }
        }
    }
}

/// Text without markup parses into its lines: a text node for each line that
/// is not empty, and a newline node between two lines.
pub proof fn law_plain_lines(t: Seq<u8>, allow_blockquote: bool, md_hyperlinks: bool)
    requires
        unmarked(t),
    ensures
        scan(t, allow_blockquote, md_hyperlinks) == plain_lines(t),
    decreases t.len(),
{
    let end = run_end(t, 0, NEWLINE);
    lemma_run_end(t, 0, NEWLINE);
    lemma_next_event_in_unmarked(t, 0, allow_blockquote, md_hyperlinks);
    if end < t.len() {
        lemma_scan_step(t, allow_blockquote, md_hyperlinks, end, Step::Newline, 1);
        lemma_unmarked_behind(t, end + 1);
        law_plain_lines(t.skip(end + 1), true, md_hyperlinks);
    } else {
        lemma_scan_plain(t, allow_blockquote, md_hyperlinks);
    }
}

/// Text without markup and without a newline parses into a single text node
/// that holds all of it; empty text parses into no node.
pub proof fn law_plain_text(t: Seq<u8>, allow_blockquote: bool, md_hyperlinks: bool)
    requires
        unmarked(t),
        forall|i: int| 0 <= i < t.len() ==> t[i] != NEWLINE,
    ensures
        scan(t, allow_blockquote, md_hyperlinks) == plain(t),
        t.len() > 0 ==> scan(t, allow_blockquote, md_hyperlinks) == seq![
            Node::Text(decode_utf8(t)),
        ],
{
    lemma_run_end(t, 0, NEWLINE);
    law_plain_lines(t, allow_blockquote, md_hyperlinks);
}

/// Every block quote among `nodes` stands first, where `allow_blockquote`,
/// or behind a newline or another block quote.
pub open spec fn quotes_begin_lines(nodes: Seq<Node>, allow_blockquote: bool) -> bool {
    forall|i: int|
        0 <= i < nodes.len() && #[trigger] nodes[i] is Blockquote ==> if i == 0 {
            allow_blockquote
        } else {
            nodes[i - 1] is Newline || nodes[i - 1] is Blockquote
        }
}

/// A block quote begins a line: in the tree of a text it stands first, where
/// one is allowed there, or behind a newline or another block quote, and
/// nowhere else.
pub proof fn law_blockquote_begins_a_line(t: Seq<u8>, allow_blockquote: bool, md_hyperlinks: bool)
    ensures
        quotes_begin_lines(scan(t, allow_blockquote, md_hyperlinks), allow_blockquote),
    decreases t.len(),
{
    let nodes = scan(t, allow_blockquote, md_hyperlinks);
    match next_event(t, 0, allow_blockquote, md_hyperlinks) {
        None => {
            lemma_scan_plain(t, allow_blockquote, md_hyperlinks);
        },
        Some((at, step, n)) => {
            lemma_next_event_bounds(t, 0, allow_blockquote, md_hyperlinks);
            lemma_scan_step(t, allow_blockquote, md_hyperlinks, at, step, n);
            lemma_event_kinds(t.skip(at), allow_blockquote && at == 0, md_hyperlinks);
            let before = plain(t.take(at));
            let node = step_node(step, md_hyperlinks);
            let behind = scan(t.skip(at + n), quote_after(step), md_hyperlinks);
            law_blockquote_begins_a_line(t.skip(at + n), quote_after(step), md_hyperlinks);
            assert(nodes == before.push(node) + behind);
            assert(at == 0 ==> before.len() == 0) by {
                assert(t.take(0).len() == 0);
            }
            assert forall|i: int| 0 <= i < nodes.len() && #[trigger] nodes[i] is Blockquote implies if i
                == 0 {
                allow_blockquote
            } else {
                nodes[i - 1] is Newline || nodes[i - 1] is Blockquote
            } by {
                if i < before.len() {
                    assert(nodes[i] == before[i]);
                } else if i == before.len() {
                    assert(nodes[i] == node);
                } else {
                    let j = i - before.len() - 1;
                    assert(nodes[i] == behind[j]);
                    if j == 0 {
                        assert(nodes[i - 1] == node);
                    } else {
                        assert(nodes[i - 1] == behind[j - 1]);
                    }
                }
            }
        },
    }
}

/// In the tree under `node`, every block quote among the children of a
/// container stands behind a newline or another block quote.
pub open spec fn quotes_in_place(node: Node) -> bool
    decreases node,
{
    match node {
        Node::Blockquote(c) => quotes_begin_lines(c, false) && forall|i: int|
            0 <= i < c.len() ==> quotes_in_place(#[trigger] c[i]),
        Node::Spoiler(c) => quotes_begin_lines(c, false) && forall|i: int|
            0 <= i < c.len() ==> quotes_in_place(#[trigger] c[i]),
        Node::Underline(c) => quotes_begin_lines(c, false) && forall|i: int|
            0 <= i < c.len() ==> quotes_in_place(#[trigger] c[i]),
        Node::Strikethrough(c) => quotes_begin_lines(c, false) && forall|i: int|
            0 <= i < c.len() ==> quotes_in_place(#[trigger] c[i]),
        Node::Bold(c) => quotes_begin_lines(c, false) && forall|i: int|
            0 <= i < c.len() ==> quotes_in_place(#[trigger] c[i]),
        Node::Italics(c) => quotes_begin_lines(c, false) && forall|i: int|
            0 <= i < c.len() ==> quotes_in_place(#[trigger] c[i]),
        _ => true,
    }
}

/// A block quote begins a line at every depth: inside a container no block
/// quote stands first, and each one stands behind a newline or another block
/// quote.
pub proof fn law_nested_blockquote_begins_a_line(
    t: Seq<u8>,
    allow_blockquote: bool,
    md_hyperlinks: bool,
)
    ensures
        forall|i: int|
            0 <= i < scan(t, allow_blockquote, md_hyperlinks).len() ==> quotes_in_place(
                #[trigger] scan(t, allow_blockquote, md_hyperlinks)[i],
            ),
    decreases t.len(),
{
    let nodes = scan(t, allow_blockquote, md_hyperlinks);
    match next_event(t, 0, allow_blockquote, md_hyperlinks) {
        None => {
            lemma_scan_plain(t, allow_blockquote, md_hyperlinks);
        },
        Some((at, step, n)) => {
            lemma_next_event_bounds(t, 0, allow_blockquote, md_hyperlinks);
            lemma_scan_step(t, allow_blockquote, md_hyperlinks, at, step, n);
            lemma_event_kinds(t.skip(at), allow_blockquote && at == 0, md_hyperlinks);
            let before = plain(t.take(at));
            let node = step_node(step, md_hyperlinks);
            let behind = scan(t.skip(at + n), quote_after(step), md_hyperlinks);
            law_nested_blockquote_begins_a_line(t.skip(at + n), quote_after(step), md_hyperlinks);
            match step {
                Step::Match(Mark::Wrapped(kind, body)) => {
                    law_blockquote_begins_a_line(body, false, md_hyperlinks);
                    law_nested_blockquote_begins_a_line(body, false, md_hyperlinks);
                },
                _ => {},
            }
            assert(quotes_in_place(node));
            assert(nodes == before.push(node) + behind);
            assert forall|i: int| 0 <= i < nodes.len() implies quotes_in_place(
                #[trigger] nodes[i],
            ) by {
                if i < before.len() {
                    assert(nodes[i] == before[i]);
                } else if i == before.len() {
                    assert(nodes[i] == node);
                } else {
                    assert(nodes[i] == behind[i - before.len() - 1]);
                }
            }
        },
    }
}

/// The body of a block quote is one line: it holds no newline, unless the
/// quoted line is empty and the body is the newline that ends it.
pub proof fn law_quote_holds_one_line(t: Seq<u8>)
    ensures
        blockquote_at(t) matches Some((body, n)) ==> body == seq![NEWLINE] || forall|i: int|
            0 <= i < body.len() ==> body[i] != NEWLINE,
{
    lemma_brackets();
    if 2 <= t.len() {
        lemma_run_end(t, 2, NEWLINE);
    }
    match blockquote_at(t) {
        Some((body, n)) => {
            if occurs(t, 2, lit("\n")) {
                lemma_occurs_byte(t, 2, lit("\n"), 0);
                assert(run_end(t, 2, NEWLINE) == 2);
                assert(body =~= seq![NEWLINE]);
            } else {
                let end = run_end(t, 2, NEWLINE);
                assert(body == t.subrange(2, end));
                assert forall|i: int| 0 <= i < body.len() implies body[i] != NEWLINE by {
                    assert(body[i] == t[2 + i]);
                }
            }
        },
        None => {},
    }
}

/// Nodes are rendered one behind the other: the HTML of two sequences of
/// nodes in a row is the HTML of the first and then the HTML of the second.
pub proof fn law_html_is_sequential(first: Seq<Node>, second: Seq<Node>, enlarged: bool)
    ensures
        html(first + second, enlarged) == html(first, enlarged) + html(second, enlarged),
    decreases second.len(),
{
    if second.len() == 0 {
        assert(first + second =~= first);
        assert(html(first, enlarged) + html(second, enlarged) =~= html(first, enlarged));
    } else {
        let all = first + second;
        assert(all.drop_last() =~= first + second.drop_last());
        assert(all.last() == second.last());
        law_html_is_sequential(first, second.drop_last(), enlarged);
        assert(html(all, enlarged) =~= html(first, enlarged) + html(second, enlarged));
    }
}

} // verus!
