//! The matchers of entities: custom emoji, mentions and links. Each one
//! looks at the start of a text for the literal that opens its token and
//! then asks the pattern of the token.

use vstd::prelude::*;
use vstd::string::StringSliceAdditionalSpecFns;
use vstd::utf8::*;

use crate::literal::lemma_brackets;
use crate::parser::{Expression, Node};
use crate::pattern::{re_capture, re_capture_at};
use crate::span::{
    cut_view, delimited, delimited_at, first_of, leaf_bounds, leaf_fits, leaf_view,
    lemma_delimited_bounds,
};
use crate::text::{
    in_reach, lemma_boundary_shift, lemma_text, lit, occurs, same, starts_at, tail,
};

verus! {

/// `<:name:id>` or `<a:name:id>`.
pub const CUSTOM_EMOJI_RE: &'static str = "^<(a?):(\\w+):(\\d+)(>)";

/// `<@id>` or `<@!id>`.
pub const USER_RE: &'static str = "^<@!?(\\d+)(>)";

/// `<@&id>`.
pub const ROLE_RE: &'static str = "^<@&(\\d+)(>)";

/// `<#id>`.
pub const CHANNEL_RE: &'static str = "^<#(\\d+)(>)";

/// A URL with one of four schemes, ending before trailing punctuation.
pub const LINK_RE: &'static str =
    "^(https?|ftp|file)(://[-A-Za-z0-9+&@#/%?=~_|!:,.;]*[A-Za-z0-9+&@#/%=~_|])";

/// The suffix that the identifier of a custom emoji gets: `.gif` where the
/// token is flagged as animated, else `.png`.
pub open spec fn emoji_suffix(flag: Seq<u8>) -> Seq<char> {
    if flag == lit("a") {
        ".gif"@
    } else {
        ".png"@
    }
}

/// A custom emoji: `<`, then what the emoji pattern captures.
pub open spec fn custom_emoji_at(t: Seq<u8>) -> Option<(Node, int)> {
    if occurs(t, 0, lit("<")) {
        match re_capture_at(CUSTOM_EMOJI_RE@, t) {
            Some((pieces, n)) => if pieces.len() >= 4 {
                Some(
                    (
                        Node::CustomEmoji(
                            decode_utf8(pieces[2]),
                            decode_utf8(pieces[3]) + emoji_suffix(pieces[1]),
                        ),
                        n,
                    ),
                )
            } else {
                None
            },
            None => None,
        }
    } else {
        None
    }
}

/// The first captured group of `pattern` on a text that starts with `open`.
pub open spec fn mention_at(t: Seq<u8>, open: Seq<u8>, pattern: Seq<char>) -> Option<
    (Seq<u8>, int),
> {
    if occurs(t, 0, open) {
        match re_capture_at(pattern, t) {
            Some((pieces, n)) => if pieces.len() >= 2 {
                Some((pieces[1], n))
            } else {
                None
            },
            None => None,
        }
    } else {
        None
    }
}

/// A user mention.
pub open spec fn user_at(t: Seq<u8>) -> Option<(Node, int)> {
    match mention_at(t, lit("<@"), USER_RE@) {
        Some((id, n)) => Some((Node::User(decode_utf8(id)), n)),
        None => None,
    }
}

/// A role mention.
pub open spec fn role_at(t: Seq<u8>) -> Option<(Node, int)> {
    match mention_at(t, lit("<@&"), ROLE_RE@) {
        Some((id, n)) => Some((Node::Role(decode_utf8(id)), n)),
        None => None,
    }
}

/// A channel mention.
pub open spec fn channel_at(t: Seq<u8>) -> Option<(Node, int)> {
    match mention_at(t, lit("<#"), CHANNEL_RE@) {
        Some((id, n)) => Some((Node::Channel(decode_utf8(id)), n)),
        None => None,
    }
}

/// The text starts with one of the four schemes and `://`.
pub open spec fn scheme_at(t: Seq<u8>) -> bool {
    ||| occurs(t, 0, lit("http://"))
    ||| occurs(t, 0, lit("https://"))
    ||| occurs(t, 0, lit("ftp://"))
    ||| occurs(t, 0, lit("file://"))
}

/// A URL as it stands: what the link pattern matches as a whole.
pub open spec fn bare_link_at(t: Seq<u8>) -> Option<(Seq<u8>, int)> {
    if scheme_at(t) {
        match re_capture_at(LINK_RE@, t) {
            Some((pieces, n)) => if pieces.len() >= 1 {
                Some((pieces[0], n))
            } else {
                None
            },
            None => None,
        }
    } else {
        None
    }
}

/// A URL between `<` and `>`.
pub open spec fn angle_link_at(t: Seq<u8>) -> Option<(Seq<u8>, int)> {
    if occurs(t, 0, lit("<")) {
        match bare_link_at(t.skip(1)) {
            Some((url, n)) => if occurs(t, 1 + n, lit(">")) {
                Some((url, n + 2))
            } else {
                None
            },
            None => None,
        }
    } else {
        None
    }
}

/// A URL, as it stands or between `<` and `>`.
pub open spec fn hyperlink_internals_at(t: Seq<u8>) -> Option<(Seq<u8>, int)> {
    first_of(bare_link_at(t), angle_link_at(t))
}

/// A link whose label is its target.
pub open spec fn hyperlink_at(t: Seq<u8>) -> Option<(Node, int)> {
    match hyperlink_internals_at(t) {
        Some((url, n)) => Some((Node::Hyperlink(decode_utf8(url), decode_utf8(url)), n)),
        None => None,
    }
}

/// `[label](url)`: the label is what stands before the first `]`.
pub open spec fn labelled_link_at(t: Seq<u8>) -> Option<(Seq<u8>, Seq<u8>, int)> {
    match delimited_at(t, lit("["), lit("]")) {
        Some((label, a)) => if occurs(t, a, lit("(")) {
            match hyperlink_internals_at(t.skip(a + 1)) {
                Some((url, n)) => if occurs(t, a + 1 + n, lit(")")) {
                    Some((label, url, a + n + 2))
                } else {
                    None
                },
                None => None,
            }
        } else {
            None
        },
        None => None,
    }
}

/// A link as `hyperlink_at` finds it, else one with a label of its own.
pub open spec fn md_hyperlink_at(t: Seq<u8>) -> Option<(Node, int)> {
    first_of(
        hyperlink_at(t),
        match labelled_link_at(t) {
            Some((label, url, n)) => Some(
                (Node::Hyperlink(decode_utf8(label), decode_utf8(url)), n),
            ),
            None => None,
        },
    )
}

/// Matches a custom emoji.
pub fn custom_emoji<'a>(input: &'a str) -> (r: Option<(Expression<'a>, usize)>)
    ensures
        leaf_view(r) == custom_emoji_at(input.spec_bytes()),
        leaf_fits(input.spec_bytes(), leaf_view(r)),
{
    if !starts_at(input, 0, "<") {
        return None;
    }
    match re_capture(CUSTOM_EMOJI_RE, input) {
        Some((pieces, n)) => {
            if pieces.len() < 4 {
                return None;
            }
            let suffix = if same(pieces[1], "a") {
                ".gif"
            } else {
                ".png"
            };
            let mut id = String::from_str(pieces[3]);
            id.append(suffix);
            proof {
                lemma_text(pieces[2]);
                lemma_text(pieces[3]);
            }
            Some((Expression::CustomEmoji(pieces[2], id), n))
        },
        None => None,
    }
}

/// Matches `pattern` on a text that starts with `open`, and hands out its
/// first captured group.
pub fn mention<'a>(input: &'a str, open: &str, pattern: &str) -> (r: Option<(&'a str, usize)>)
    ensures
        cut_view(r) == mention_at(input.spec_bytes(), lit(open), pattern@),
        r matches Some((_, n)) ==> in_reach(input.spec_bytes(), n as int),
{
    if !starts_at(input, 0, open) {
        return None;
    }
    match re_capture(pattern, input) {
        Some((pieces, n)) => {
            if pieces.len() < 2 {
                return None;
            }
            Some((pieces[1], n))
        },
        None => None,
    }
}

/// Matches a user mention.
pub fn user<'a>(input: &'a str) -> (r: Option<(Expression<'a>, usize)>)
    ensures
        leaf_view(r) == user_at(input.spec_bytes()),
        leaf_fits(input.spec_bytes(), leaf_view(r)),
{
    match mention(input, "<@", USER_RE) {
        Some((id, n)) => {
            proof {
                lemma_text(id);
            }
            Some((Expression::User(id), n))
        },
        None => None,
    }
}

/// Matches a role mention.
pub fn role<'a>(input: &'a str) -> (r: Option<(Expression<'a>, usize)>)
    ensures
        leaf_view(r) == role_at(input.spec_bytes()),
        leaf_fits(input.spec_bytes(), leaf_view(r)),
{
    match mention(input, "<@&", ROLE_RE) {
        Some((id, n)) => {
            proof {
                lemma_text(id);
            }
            Some((Expression::Role(id), n))
        },
        None => None,
    }
}

/// Matches a channel mention.
pub fn channel<'a>(input: &'a str) -> (r: Option<(Expression<'a>, usize)>)
    ensures
        leaf_view(r) == channel_at(input.spec_bytes()),
        leaf_fits(input.spec_bytes(), leaf_view(r)),
{
    match mention(input, "<#", CHANNEL_RE) {
        Some((id, n)) => {
            proof {
                lemma_text(id);
            }
            Some((Expression::Channel(id), n))
        },
        None => None,
    }
}

/// Tests whether the text starts with a scheme and `://`.
pub fn has_scheme(input: &str) -> (r: bool)
    ensures
        r == scheme_at(input.spec_bytes()),
{
    starts_at(input, 0, "http://") || starts_at(input, 0, "https://") || starts_at(
        input,
        0,
        "ftp://",
    ) || starts_at(input, 0, "file://")
}

/// Matches a URL as it stands.
pub fn bare_link<'a>(input: &'a str) -> (r: Option<(&'a str, usize)>)
    ensures
        cut_view(r) == bare_link_at(input.spec_bytes()),
        r matches Some((_, n)) ==> in_reach(input.spec_bytes(), n as int),
{
    if !has_scheme(input) {
        return None;
    }
    match re_capture(LINK_RE, input) {
        Some((pieces, n)) => {
            if pieces.len() < 1 {
                return None;
            }
            Some((pieces[0], n))
        },
        None => None,
    }
}

/// Matches a URL between `<` and `>`.
pub fn angle_link<'a>(input: &'a str) -> (r: Option<(&'a str, usize)>)
    ensures
        cut_view(r) == angle_link_at(input.spec_bytes()),
        r matches Some((_, n)) ==> in_reach(input.spec_bytes(), n as int),
{
    proof {
        lemma_brackets();
        lemma_text(input);
    }
    if !starts_at(input, 0, "<") {
        return None;
    }
    let rest = tail(input, 1);
    match bare_link(rest) {
        Some((url, n)) => {
            proof {
                lemma_text(rest);
                lemma_boundary_shift(input.spec_bytes(), 1, n as int);
            }
            if starts_at(input, 1 + n, ">") {
                Some((url, n + 2))
            } else {
                None
            }
        },
        None => None,
    }
}

/// Matches a URL, as it stands or between `<` and `>`.
pub fn hyperlink_internals<'a>(input: &'a str) -> (r: Option<(&'a str, usize)>)
    ensures
        cut_view(r) == hyperlink_internals_at(input.spec_bytes()),
        r matches Some((_, n)) ==> in_reach(input.spec_bytes(), n as int),
{
    match bare_link(input) {
        Some(link) => Some(link),
        None => angle_link(input),
    }
}

/// Matches a link.
pub fn hyperlink<'a>(input: &'a str) -> (r: Option<(Expression<'a>, usize)>)
    ensures
        leaf_view(r) == hyperlink_at(input.spec_bytes()),
        leaf_fits(input.spec_bytes(), leaf_view(r)),
{
    match hyperlink_internals(input) {
        Some((url, n)) => {
            proof {
                lemma_text(url);
            }
            Some((Expression::Hyperlink(url, url), n))
        },
        None => None,
    }
}

/// Matches `[label](url)`.
pub fn labelled_link<'a>(input: &'a str) -> (r: Option<(&'a str, &'a str, usize)>)
    ensures
        match r {
            Some((label, url, n)) => labelled_link_at(input.spec_bytes()) == Some(
                (label.spec_bytes(), url.spec_bytes(), n as int),
            ) && in_reach(input.spec_bytes(), n as int),
            None => labelled_link_at(input.spec_bytes()) is None,
        },
{
    proof {
        lemma_brackets();
        lemma_text(input);
    }
    match delimited(input, "[", "]") {
        Some((label, a)) => {
            if !starts_at(input, a, "(") {
                return None;
            }
            let rest = tail(input, a + 1);
            match hyperlink_internals(rest) {
                Some((url, n)) => {
                    proof {
                        lemma_text(rest);
                        lemma_boundary_shift(input.spec_bytes(), a + 1, n as int);
                    }
                    if starts_at(input, a + 1 + n, ")") {
                        Some((label, url, a + n + 2))
                    } else {
                        None
                    }
                },
                None => None,
            }
        },
        None => None,
    }
}

/// Matches a link, with or without a label of its own.
pub fn md_hyperlink<'a>(input: &'a str) -> (r: Option<(Expression<'a>, usize)>)
    ensures
        leaf_view(r) == md_hyperlink_at(input.spec_bytes()),
        leaf_fits(input.spec_bytes(), leaf_view(r)),
{
    if let Some(link) = hyperlink(input) {
        return Some(link);
    }
    match labelled_link(input) {
        Some((label, url, n)) => {
            proof {
                lemma_text(label);
                lemma_text(url);
            }
            Some((Expression::Hyperlink(label, url), n))
        },
        None => None,
    }
}

/// A match of a pattern covers one byte or more and ends inside `t`.
pub proof fn lemma_re_capture_bounds(pattern: Seq<char>, t: Seq<u8>)
    ensures
        re_capture_at(pattern, t) matches Some((pieces, n)) ==> 0 < n <= t.len() && pieces.len()
            > 0,
{
}

/// A link covers one byte or more and ends inside `t`.
pub proof fn lemma_link_bounds(t: Seq<u8>)
    ensures
        hyperlink_internals_at(t) matches Some((_, n)) ==> 0 < n <= t.len(),
        leaf_bounds(t, hyperlink_at(t)),
{
    lemma_brackets();
    lemma_re_capture_bounds(LINK_RE@, t);
    lemma_re_capture_bounds(LINK_RE@, t.skip(1));
}

/// A link with a label covers one byte or more and ends inside `t`.
pub proof fn lemma_md_link_bounds(t: Seq<u8>)
    ensures
        leaf_bounds(t, md_hyperlink_at(t)),
{
    lemma_brackets();
    lemma_link_bounds(t);
    lemma_delimited_bounds(t, lit("["), lit("]"));
    match delimited_at(t, lit("["), lit("]")) {
        Some((label, a)) => {
            lemma_link_bounds(t.skip(a + 1));
        },
        None => {},
    }
}

} // verus!
