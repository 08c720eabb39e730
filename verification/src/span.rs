//! The matchers of spans: text between a pair of delimiters, and the quoted
//! line. Each one looks at the start of a text and hands out the body it
//! found with the number of bytes that the whole construct covers.

use vstd::prelude::*;
use vstd::string::StringSliceAdditionalSpecFns;
use vstd::utf8::*;

use crate::literal::{
    lemma_brackets, lemma_delimiters, ASTERISK, BACKTICK, NEWLINE, UNDERSCORE,
};
use crate::parser::{node_of, Expression, Node};
use crate::text::{
    find, find_from, in_reach, lemma_find, lemma_run_end, lemma_text, length, lit, occurs,
    run_end, skip_to, slice, starts_at,
};

verus! {

/// The first of two outcomes that is one.
pub open spec fn first_of<T>(a: Option<T>, b: Option<T>) -> Option<T> {
    if a is Some {
        a
    } else {
        b
    }
}

/// The bytes of a body and the bytes covered, as a matcher hands them out.
pub open spec fn cut_view(r: Option<(&str, usize)>) -> Option<(Seq<u8>, int)> {
    match r {
        Some((body, n)) => Some((body.spec_bytes(), n as int)),
        None => None,
    }
}

/// The model of a leaf and the bytes covered, as a matcher hands them out.
pub open spec fn leaf_view(r: Option<(Expression, usize)>) -> Option<(Node, int)> {
    match r {
        Some((e, n)) => Some((node_of(e), n as int)),
        None => None,
    }
}

/// A body is shorter than what covers it, which ends inside `t` between two
/// characters.
pub open spec fn cut_fits(t: Seq<u8>, cut: Option<(Seq<u8>, int)>) -> bool {
    cut matches Some((body, n)) ==> body.len() < n && in_reach(t, n)
}

/// What covers a leaf ends inside `t` between two characters.
pub open spec fn leaf_fits(t: Seq<u8>, leaf: Option<(Node, int)>) -> bool {
    leaf matches Some((_, n)) ==> in_reach(t, n)
}

/// A body is shorter than what covers it, which is not empty and ends inside
/// `t`.
pub open spec fn cut_bounds(t: Seq<u8>, cut: Option<(Seq<u8>, int)>) -> bool {
    cut matches Some((body, n)) ==> body.len() < n <= t.len()
}

/// What covers a leaf is not empty and ends inside `t`.
pub open spec fn leaf_bounds(t: Seq<u8>, leaf: Option<(Node, int)>) -> bool {
    leaf matches Some((_, n)) ==> 0 < n <= t.len()
}

/// `open`, then everything before the first `close` after it, then `close`.
pub open spec fn delimited_at(t: Seq<u8>, open: Seq<u8>, close: Seq<u8>) -> Option<
    (Seq<u8>, int),
> {
    if occurs(t, 0, open) {
        match find(t, open.len() as int, close) {
            Some(k) => Some((t.subrange(open.len() as int, k), k + close.len())),
            None => None,
        }
    } else {
        None
    }
}

/// `open`, then one byte or more other than `stop`, then `stop`.
pub open spec fn enclosed_run_at(t: Seq<u8>, open: Seq<u8>, stop: u8) -> Option<(Seq<u8>, int)> {
    let end = run_end(t, open.len() as int, stop);
    if occurs(t, 0, open) && open.len() < end < t.len() {
        Some((t.subrange(open.len() as int, end), end + 1))
    } else {
        None
    }
}

/// Looks from offset `from` for the first `three`. The body runs from behind
/// an opening `two` to behind the `one` that stands there, and a closing
/// `two` follows it.
pub open spec fn marked_at(t: Seq<u8>, from: int, one: Seq<u8>, two: Seq<u8>, three: Seq<u8>)
    -> Option<(Seq<u8>, int)> {
    match find(t, from, three) {
        Some(k) => if occurs(t, k, one) && occurs(t, k + one.len(), two) {
            Some((t.subrange(two.len() as int, k + one.len()), k + one.len() + two.len()))
        } else {
            None
        },
        None => None,
    }
}

/// The four forms of a doubled delimiter, in the order in which they are
/// tried: the delimiter doubled twice on both sides; a body that opens and
/// closes with a single delimiter of its own; a body that closes with one;
/// the plain doubled delimiter.
pub open spec fn strong_at(t: Seq<u8>, one: Seq<u8>, two: Seq<u8>, three: Seq<u8>, four: Seq<u8>)
    -> Option<(Seq<u8>, int)> {
    first_of(
        delimited_at(t, four, four),
        first_of(
            if occurs(t, 0, two) && occurs(t, two.len() as int, one) {
                marked_at(t, (two.len() + one.len()) as int, one, two, three)
            } else {
                None
            },
            first_of(
                if occurs(t, 0, two) {
                    marked_at(t, two.len() as int, one, two, three)
                } else {
                    None
                },
                delimited_at(t, two, two),
            ),
        ),
    )
}

/// Three backticks on both sides.
pub open spec fn multiline_code_at(t: Seq<u8>) -> Option<(Node, int)> {
    match delimited_at(t, lit("```"), lit("```")) {
        Some((body, n)) => Some((Node::MultilineCode(decode_utf8(body)), n)),
        None => None,
    }
}

/// Two backticks on both sides, else one on both sides around a body without
/// any.
pub open spec fn inline_code_at(t: Seq<u8>) -> Option<(Node, int)> {
    match first_of(delimited_at(t, lit("``"), lit("``")), enclosed_run_at(t, lit("`"), BACKTICK)) {
        Some((body, n)) => Some((Node::InlineCode(decode_utf8(body)), n)),
        None => None,
    }
}

/// `> ` and a line: the line with the newline that ends it, which is covered
/// but not part of the body; else an empty line, whose body is its newline;
/// else what is left of a text that holds no newline.
pub open spec fn blockquote_at(t: Seq<u8>) -> Option<(Seq<u8>, int)> {
    let open = lit("> ");
    let end = run_end(t, open.len() as int, NEWLINE);
    first_of(
        enclosed_run_at(t, open, NEWLINE),
        first_of(
            if occurs(t, 0, open) && occurs(t, open.len() as int, lit("\n")) {
                Some(
                    (
                        t.subrange(open.len() as int, (open.len() + lit("\n").len()) as int),
                        (open.len() + lit("\n").len()) as int,
                    ),
                )
            } else {
                None
            },
            if occurs(t, 0, open) && open.len() < end {
                Some((t.subrange(open.len() as int, end), end))
            } else {
                None
            },
        ),
    )
}

/// `||` on both sides.
pub open spec fn spoiler_at(t: Seq<u8>) -> Option<(Seq<u8>, int)> {
    delimited_at(t, lit("||"), lit("||"))
}

/// `__` in its four forms.
pub open spec fn underline_at(t: Seq<u8>) -> Option<(Seq<u8>, int)> {
    strong_at(t, lit("_"), lit("__"), lit("___"), lit("____"))
}

/// `~~` on both sides.
pub open spec fn strikethrough_at(t: Seq<u8>) -> Option<(Seq<u8>, int)> {
    delimited_at(t, lit("~~"), lit("~~"))
}

/// `**` in its four forms.
pub open spec fn bold_at(t: Seq<u8>) -> Option<(Seq<u8>, int)> {
    strong_at(t, lit("*"), lit("**"), lit("***"), lit("****"))
}

/// `_` on both sides of a body without one, else `*` likewise.
pub open spec fn italics_at(t: Seq<u8>) -> Option<(Seq<u8>, int)> {
    first_of(enclosed_run_at(t, lit("_"), UNDERSCORE), enclosed_run_at(t, lit("*"), ASTERISK))
}

/// Matches `open`, a body that ends before the first `close`, and `close`.
pub fn delimited<'a>(input: &'a str, open: &str, close: &str) -> (r: Option<(&'a str, usize)>)
    requires
        lit(open).len() > 0,
        lit(close).len() > 0,
    ensures
        cut_view(r) == delimited_at(input.spec_bytes(), lit(open), lit(close)),
        cut_fits(input.spec_bytes(), cut_view(r)),
{
    proof {
        lemma_text(input);
    }
    if !starts_at(input, 0, open) {
        return None;
    }
    let start = length(open);
    match find_from(input, start, close) {
        Some(k) => Some((slice(input, start, k), k + length(close))),
        None => None,
    }
}

/// Matches `open`, a body of one byte or more that holds no `stop`, and
/// `stop`.
pub fn enclosed_run<'a>(input: &'a str, open: &str, stop: u8) -> (r: Option<(&'a str, usize)>)
    requires
        lit(open).len() > 0,
        stop < 0x80,
    ensures
        cut_view(r) == enclosed_run_at(input.spec_bytes(), lit(open), stop),
        cut_fits(input.spec_bytes(), cut_view(r)),
{
    proof {
        lemma_text(input);
    }
    if !starts_at(input, 0, open) {
        return None;
    }
    let start = length(open);
    let end = skip_to(input, start, stop);
    if start < end && end < length(input) {
        Some((slice(input, start, end), end + 1))
    } else {
        None
    }
}

/// Looks from `from` for the first `three` and takes the `one` that stands
/// there into the body, which began behind an opening `two`.
pub(crate) fn marked<'a>(input: &'a str, from: usize, one: &str, two: &str, three: &str) -> (r: Option<
    (&'a str, usize),
>)
    requires
        lit(one).len() > 0,
        lit(two).len() > 0,
        lit(three).len() > 0,
        lit(two).len() <= from,
        is_char_boundary(input.spec_bytes(), lit(two).len() as int),
    ensures
        cut_view(r) == marked_at(input.spec_bytes(), from as int, lit(one), lit(two), lit(three)),
        cut_fits(input.spec_bytes(), cut_view(r)),
{
    proof {
        lemma_text(input);
    }
    match find_from(input, from, three) {
        Some(k) => {
            if !starts_at(input, k, one) {
                return None;
            }
            let mid = k + length(one);
            if !starts_at(input, mid, two) {
                return None;
            }
            Some((slice(input, length(two), mid), mid + length(two)))
        },
        None => None,
    }
}

/// Matches a doubled delimiter in its four forms.
pub fn strong<'a>(input: &'a str, one: &str, two: &str, three: &str, four: &str) -> (r: Option<
    (&'a str, usize),
>)
    requires
        lit(one).len() > 0,
        lit(two).len() > 0,
        lit(three).len() > 0,
        lit(four).len() > 0,
    ensures
        cut_view(r) == strong_at(input.spec_bytes(), lit(one), lit(two), lit(three), lit(four)),
        cut_fits(input.spec_bytes(), cut_view(r)),
{
    proof {
        lemma_text(input);
    }
    if let Some(cut) = delimited(input, four, four) {
        return Some(cut);
    }
    if starts_at(input, 0, two) {
        let start = length(two);
        if starts_at(input, start, one) {
            if let Some(cut) = marked(input, start + length(one), one, two, three) {
                return Some(cut);
            }
        }
        if let Some(cut) = marked(input, start, one, two, three) {
            return Some(cut);
        }
    }
    delimited(input, two, two)
}

/// Matches a block of code between triple backticks.
pub fn multiline_code<'a>(input: &'a str) -> (r: Option<(Expression<'a>, usize)>)
    ensures
        leaf_view(r) == multiline_code_at(input.spec_bytes()),
        leaf_fits(input.spec_bytes(), leaf_view(r)),
{
    proof {
        lemma_delimiters();
    }
    match delimited(input, "```", "```") {
        Some((body, n)) => {
            proof {
                lemma_text(body);
            }
            Some((Expression::MultilineCode(body), n))
        },
        None => None,
    }
}

/// Matches code between double backticks, else between single ones.
pub fn inline_code<'a>(input: &'a str) -> (r: Option<(Expression<'a>, usize)>)
    ensures
        leaf_view(r) == inline_code_at(input.spec_bytes()),
        leaf_fits(input.spec_bytes(), leaf_view(r)),
{
    proof {
        lemma_delimiters();
    }
    let cut = match delimited(input, "``", "``") {
        Some(cut) => Some(cut),
        None => enclosed_run(input, "`", BACKTICK),
    };
    match cut {
        Some((body, n)) => {
            proof {
                lemma_text(body);
            }
            Some((Expression::InlineCode(body), n))
        },
        None => None,
    }
}

/// Matches a quoted line.
pub fn blockquote<'a>(input: &'a str) -> (r: Option<(&'a str, usize)>)
    ensures
        cut_view(r) == blockquote_at(input.spec_bytes()),
        cut_fits(input.spec_bytes(), cut_view(r)),
{
    proof {
        lemma_brackets();
        lemma_text(input);
    }
    if let Some(cut) = enclosed_run(input, "> ", NEWLINE) {
        return Some(cut);
    }
    if !starts_at(input, 0, "> ") {
        return None;
    }
    let start = length("> ");
    if starts_at(input, start, "\n") {
        let end = start + length("\n");
        return Some((slice(input, start, end), end));
    }
    let end = skip_to(input, start, NEWLINE);
    if start < end {
        Some((slice(input, start, end), end))
    } else {
        None
    }
}

/// Matches a spoiler.
pub fn spoiler<'a>(input: &'a str) -> (r: Option<(&'a str, usize)>)
    ensures
        cut_view(r) == spoiler_at(input.spec_bytes()),
        cut_fits(input.spec_bytes(), cut_view(r)),
{
    proof {
        lemma_delimiters();
    }
    delimited(input, "||", "||")
}

/// Matches underlined text.
pub fn underline<'a>(input: &'a str) -> (r: Option<(&'a str, usize)>)
    ensures
        cut_view(r) == underline_at(input.spec_bytes()),
        cut_fits(input.spec_bytes(), cut_view(r)),
{
    proof {
        lemma_delimiters();
    }
    strong(input, "_", "__", "___", "____")
}

/// Matches struck-through text.
pub fn strikethrough<'a>(input: &'a str) -> (r: Option<(&'a str, usize)>)
    ensures
        cut_view(r) == strikethrough_at(input.spec_bytes()),
        cut_fits(input.spec_bytes(), cut_view(r)),
{
    proof {
        lemma_delimiters();
    }
    delimited(input, "~~", "~~")
}

/// Matches bold text.
pub fn bold<'a>(input: &'a str) -> (r: Option<(&'a str, usize)>)
    ensures
        cut_view(r) == bold_at(input.spec_bytes()),
        cut_fits(input.spec_bytes(), cut_view(r)),
{
    proof {
        lemma_delimiters();
    }
    strong(input, "*", "**", "***", "****")
}

/// Matches text in italics.
pub fn italics<'a>(input: &'a str) -> (r: Option<(&'a str, usize)>)
    ensures
        cut_view(r) == italics_at(input.spec_bytes()),
        cut_fits(input.spec_bytes(), cut_view(r)),
{
    proof {
        lemma_delimiters();
    }
    match enclosed_run(input, "_", UNDERSCORE) {
        Some(cut) => Some(cut),
        None => enclosed_run(input, "*", ASTERISK),
    }
}

/// `delimited_at` keeps `cut_bounds`.
pub proof fn lemma_delimited_bounds(t: Seq<u8>, open: Seq<u8>, close: Seq<u8>)
    requires
        open.len() > 0,
    ensures
        cut_bounds(t, delimited_at(t, open, close)),
{
    lemma_find(t, open.len() as int, close);
}

/// `enclosed_run_at` keeps `cut_bounds`.
pub proof fn lemma_enclosed_run_bounds(t: Seq<u8>, open: Seq<u8>, stop: u8)
    requires
        open.len() > 0,
    ensures
        cut_bounds(t, enclosed_run_at(t, open, stop)),
{
}

/// `marked_at` keeps `cut_bounds`.
pub proof fn lemma_marked_bounds(
    t: Seq<u8>,
    from: int,
    one: Seq<u8>,
    two: Seq<u8>,
    three: Seq<u8>,
)
    requires
        two.len() > 0,
        two.len() <= from,
    ensures
        cut_bounds(t, marked_at(t, from, one, two, three)),
{
    lemma_find(t, from, three);
}

/// `strong_at` keeps `cut_bounds`.
pub proof fn lemma_strong_bounds(
    t: Seq<u8>,
    one: Seq<u8>,
    two: Seq<u8>,
    three: Seq<u8>,
    four: Seq<u8>,
)
    requires
        two.len() > 0,
        four.len() > 0,
    ensures
        cut_bounds(t, strong_at(t, one, two, three, four)),
{
    lemma_delimited_bounds(t, four, four);
    lemma_delimited_bounds(t, two, two);
    lemma_marked_bounds(t, (two.len() + one.len()) as int, one, two, three);
    lemma_marked_bounds(t, two.len() as int, one, two, three);
}

/// `blockquote_at` keeps `cut_bounds`.
pub proof fn lemma_blockquote_bounds(t: Seq<u8>)
    ensures
        cut_bounds(t, blockquote_at(t)),
{
    lemma_brackets();
    lemma_enclosed_run_bounds(t, lit("> "), NEWLINE);
    if 2 <= t.len() {
        lemma_run_end(t, 2, NEWLINE);
    }
}

} // verus!
