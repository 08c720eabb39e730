//! The matchers in the order of their priority.

use vstd::prelude::*;
use vstd::string::StringSliceAdditionalSpecFns;

use crate::entity::{
    channel, channel_at, custom_emoji, custom_emoji_at, hyperlink, hyperlink_at,
    lemma_link_bounds, lemma_md_link_bounds, lemma_re_capture_bounds, md_hyperlink,
    md_hyperlink_at, role, role_at, scheme_at, user, user_at, CHANNEL_RE, CUSTOM_EMOJI_RE,
    ROLE_RE, USER_RE,
};
use crate::literal::{
    lemma_brackets, lemma_delimiters, lemma_opening, ASTERISK, BACKTICK, UNDERSCORE,
};
use crate::parser::{node_of, Expression, Node, Wrap};
use crate::span::{
    blockquote, blockquote_at, bold, bold_at, inline_code, inline_code_at, italics,
    italics_at, lemma_blockquote_bounds, lemma_delimited_bounds, lemma_enclosed_run_bounds,
    lemma_strong_bounds, multiline_code, multiline_code_at, spoiler, spoiler_at, strikethrough,
    strikethrough_at, underline, underline_at,
};
use crate::text::{in_reach, lit};

verus! {

/// What a matcher found: a finished leaf, or the kind of a container and the
/// text of its body, which is still to be scanned.
pub enum Found<'a> {
    Leaf(Expression<'a>),
    Wrapped(Wrap, &'a str),
}

/// The model of a `Found`.
pub enum Mark {
    Leaf(Node),
    Wrapped(Wrap, Seq<u8>),
}

/// The model of what a matcher found.
pub open spec fn mark_of(found: Found) -> Mark {
    match found {
        Found::Leaf(e) => Mark::Leaf(node_of(e)),
        Found::Wrapped(kind, body) => Mark::Wrapped(kind, body.spec_bytes()),
    }
}

/// The model of what was found and the bytes covered.
pub open spec fn found_view(r: Option<(Found, usize)>) -> Option<(Mark, int)> {
    match r {
        Some((found, n)) => Some((mark_of(found), n as int)),
        None => None,
    }
}

/// A leaf as a mark.
pub open spec fn leaf(r: Option<(Node, int)>) -> Option<(Mark, int)> {
    match r {
        Some((node, n)) => Some((Mark::Leaf(node), n)),
        None => None,
    }
}

/// A body as the mark of a container of kind `kind`.
pub open spec fn wrapped(kind: Wrap, r: Option<(Seq<u8>, int)>) -> Option<(Mark, int)> {
    match r {
        Some((body, n)) => Some((Mark::Wrapped(kind, body), n)),
        None => None,
    }
}

/// What covers a mark ends inside `t` between two characters, and the body
/// of a container is shorter than what covers it.
pub open spec fn mark_fits(t: Seq<u8>, r: Option<(Mark, int)>) -> bool {
    r matches Some((mark, n)) ==> in_reach(t, n) && (mark matches Mark::Wrapped(_, body)
        ==> body.len() < n)
}

/// What covers a mark is not empty and ends inside `t`, and the body of a
/// container is shorter than what covers it.
pub open spec fn mark_bounds(t: Seq<u8>, r: Option<(Mark, int)>) -> bool {
    r matches Some((mark, n)) ==> 0 < n <= t.len() && (mark matches Mark::Wrapped(_, body)
        ==> body.len() < n)
}

/// The first matcher that finds something, in the order of their priority:
/// block quote (where `allow_blockquote`), custom emoji, user, role, channel,
/// link (with or without labelled links, by `md_hyperlinks`), multiline code,
/// inline code, spoiler, underline, strikethrough, bold, italics.
#[verifier::opaque]
pub open spec fn apply_parsers_at(t: Seq<u8>, allow_blockquote: bool, md_hyperlinks: bool)
    -> Option<(Mark, int)> {
    let link = if md_hyperlinks {
        md_hyperlink_at(t)
    } else {
        hyperlink_at(t)
    };
    if allow_blockquote && blockquote_at(t) is Some {
        wrapped(Wrap::Blockquote, blockquote_at(t))
    } else if custom_emoji_at(t) is Some {
        leaf(custom_emoji_at(t))
    } else if user_at(t) is Some {
        leaf(user_at(t))
    } else if role_at(t) is Some {
        leaf(role_at(t))
    } else if channel_at(t) is Some {
        leaf(channel_at(t))
    } else if link is Some {
        leaf(link)
    } else if multiline_code_at(t) is Some {
        leaf(multiline_code_at(t))
    } else if inline_code_at(t) is Some {
        leaf(inline_code_at(t))
    } else if spoiler_at(t) is Some {
        wrapped(Wrap::Spoiler, spoiler_at(t))
    } else if underline_at(t) is Some {
        wrapped(Wrap::Underline, underline_at(t))
    } else if strikethrough_at(t) is Some {
        wrapped(Wrap::Strikethrough, strikethrough_at(t))
    } else if bold_at(t) is Some {
        wrapped(Wrap::Bold, bold_at(t))
    } else {
        wrapped(Wrap::Italics, italics_at(t))
    }
}

/// Tries the matchers in the order of their priority.
pub fn apply_parsers<'a>(allow_blockquote: bool, md_hyperlinks: bool, input: &'a str) -> (r:
    Option<(Found<'a>, usize)>)
    ensures
        found_view(r) == apply_parsers_at(input.spec_bytes(), allow_blockquote, md_hyperlinks),
        mark_fits(input.spec_bytes(), found_view(r)),
{
    reveal(apply_parsers_at);
    if allow_blockquote {
        if let Some((body, n)) = blockquote(input) {
            return Some((Found::Wrapped(Wrap::Blockquote, body), n));
        }
    }
    if let Some((e, n)) = custom_emoji(input) {
        return Some((Found::Leaf(e), n));
    }
    if let Some((e, n)) = user(input) {
        return Some((Found::Leaf(e), n));
    }
    if let Some((e, n)) = role(input) {
        return Some((Found::Leaf(e), n));
    }
    if let Some((e, n)) = channel(input) {
        return Some((Found::Leaf(e), n));
    }
    let link = if md_hyperlinks {
        md_hyperlink(input)
    } else {
        hyperlink(input)
    };
    if let Some((e, n)) = link {
        return Some((Found::Leaf(e), n));
    }
    if let Some((e, n)) = multiline_code(input) {
        return Some((Found::Leaf(e), n));
    }
    if let Some((e, n)) = inline_code(input) {
        return Some((Found::Leaf(e), n));
    }
    if let Some((body, n)) = spoiler(input) {
        return Some((Found::Wrapped(Wrap::Spoiler, body), n));
    }
    if let Some((body, n)) = underline(input) {
        return Some((Found::Wrapped(Wrap::Underline, body), n));
    }
    if let Some((body, n)) = strikethrough(input) {
        return Some((Found::Wrapped(Wrap::Strikethrough, body), n));
    }
    if let Some((body, n)) = bold(input) {
        return Some((Found::Wrapped(Wrap::Bold, body), n));
    }
    match italics(input) {
        Some((body, n)) => Some((Found::Wrapped(Wrap::Italics, body), n)),
        None => None,
    }
}

/// A byte with which markup can begin.
pub open spec fn is_markup(b: u8) -> bool {
    ||| b == '\n' as u8
    ||| b == '\\' as u8
    ||| b == '<' as u8
    ||| b == '>' as u8
    ||| b == '[' as u8
    ||| b == '`' as u8
    ||| b == '|' as u8
    ||| b == '_' as u8
    ||| b == '~' as u8
    ||| b == '*' as u8
}

/// The kinds of node that a matcher hands out as a leaf.
pub open spec fn is_leaf_kind(node: Node) -> bool {
    ||| node is CustomEmoji
    ||| node is User
    ||| node is Role
    ||| node is Channel
    ||| node is Hyperlink
    ||| node is MultilineCode
    ||| node is InlineCode
}

/// What a matcher finds begins with a byte of markup, or with a scheme.
pub proof fn lemma_apply_parsers_opening(t: Seq<u8>, allow_blockquote: bool, md_hyperlinks: bool)
    ensures
        apply_parsers_at(t, allow_blockquote, md_hyperlinks) is Some ==> t.len() > 0 && (
        is_markup(t[0]) || scheme_at(t)),
{
    reveal(apply_parsers_at);
    lemma_delimiters();
    lemma_brackets();
    lemma_opening(t, lit("> "));
    lemma_opening(t, lit("<"));
    lemma_opening(t, lit("<@"));
    lemma_opening(t, lit("<@&"));
    lemma_opening(t, lit("<#"));
    lemma_opening(t, lit("["));
    lemma_opening(t, lit("```"));
    lemma_opening(t, lit("``"));
    lemma_opening(t, lit("`"));
    lemma_opening(t, lit("||"));
    lemma_opening(t, lit("____"));
    lemma_opening(t, lit("__"));
    lemma_opening(t, lit("_"));
    lemma_opening(t, lit("~~"));
    lemma_opening(t, lit("****"));
    lemma_opening(t, lit("**"));
    lemma_opening(t, lit("*"));
}

/// A leaf that the matchers hand out is an entity, a link or code, and a
/// block quote is found only where one is allowed.
pub proof fn lemma_apply_parsers_kinds(t: Seq<u8>, allow_blockquote: bool, md_hyperlinks: bool)
    ensures
        match apply_parsers_at(t, allow_blockquote, md_hyperlinks) {
            Some((Mark::Leaf(node), _)) => is_leaf_kind(node),
            Some((Mark::Wrapped(kind, _), _)) => kind == Wrap::Blockquote ==> allow_blockquote,
            None => true,
        },
{
    reveal(apply_parsers_at);
}

/// Whatever the matchers find keeps `mark_bounds`.
pub proof fn lemma_apply_parsers_bounds(t: Seq<u8>, allow_blockquote: bool, md_hyperlinks: bool)
    ensures
        mark_bounds(t, apply_parsers_at(t, allow_blockquote, md_hyperlinks)),
{
    reveal(apply_parsers_at);
    lemma_delimiters();
    lemma_blockquote_bounds(t);
    lemma_re_capture_bounds(CUSTOM_EMOJI_RE@, t);
    lemma_re_capture_bounds(USER_RE@, t);
    lemma_re_capture_bounds(ROLE_RE@, t);
    lemma_re_capture_bounds(CHANNEL_RE@, t);
    lemma_link_bounds(t);
    lemma_md_link_bounds(t);
    lemma_delimited_bounds(t, lit("```"), lit("```"));
    lemma_delimited_bounds(t, lit("``"), lit("``"));
    lemma_enclosed_run_bounds(t, lit("`"), BACKTICK);
    lemma_delimited_bounds(t, lit("||"), lit("||"));
    lemma_strong_bounds(t, lit("_"), lit("__"), lit("___"), lit("____"));
    lemma_delimited_bounds(t, lit("~~"), lit("~~"));
    lemma_strong_bounds(t, lit("*"), lit("**"), lit("***"), lit("****"));
    lemma_enclosed_run_bounds(t, lit("_"), UNDERSCORE);
    lemma_enclosed_run_bounds(t, lit("*"), ASTERISK);
}

} // verus!
