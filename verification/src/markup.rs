//! The pieces of HTML that the nodes of a tree turn into, and the string
//! operations that shape them.

use vstd::prelude::*;
use vstd::std_specs::iter::IteratorSpec;

use crate::parser::Wrap;

verus! {

/// The HTML entity that stands for a reserved character; any other character
/// stands for itself.
pub open spec fn escaped_char(c: char) -> Seq<char> {
    if c == '&' {
        "&amp;"@
    } else if c == '<' {
        "&lt;"@
    } else if c == '>' {
        "&gt;"@
    } else if c == '"' {
        "&quot;"@
    } else if c == '\'' {
        "&#x27;"@
    } else {
        seq![c]
    }
}

/// A text with each of its characters escaped.
pub open spec fn escaped(text: Seq<char>) -> Seq<char>
    decreases text.len(),
{
    if text.len() == 0 {
        Seq::empty()
    } else {
        escaped(text.drop_last()) + escaped_char(text.last())
    }
}

/// Whether a character has the Unicode property White_Space, as
/// `char::is_whitespace` tells it.
pub uninterp spec fn white_space(c: char) -> bool;

/// A text without the white space at its start.
pub open spec fn trimmed_start(text: Seq<char>) -> Seq<char>
    decreases text.len(),
{
    if text.len() > 0 && white_space(text.first()) {
        trimmed_start(text.drop_first())
    } else {
        text
    }
}

/// A text without the white space at its end.
pub open spec fn trimmed_end(text: Seq<char>) -> Seq<char>
    decreases text.len(),
{
    if text.len() > 0 && white_space(text.last()) {
        trimmed_end(text.drop_last())
    } else {
        text
    }
}

/// A text without the white space at its two ends.
pub open spec fn trimmed(text: Seq<char>) -> Seq<char> {
    trimmed_end(trimmed_start(text))
}

/// A text that holds nothing but white space.
pub open spec fn blank(text: Seq<char>) -> bool {
    forall|i: int| 0 <= i < text.len() ==> white_space(#[trigger] text[i])
}

/// A text with `to` in the place of each `from`.
pub open spec fn replaced(text: Seq<char>, from: char, to: Seq<char>) -> Seq<char>
    decreases text.len(),
{
    if text.len() == 0 {
        Seq::empty()
    } else if text.last() == from {
        replaced(text.drop_last(), from, to) + to
    } else {
        replaced(text.drop_last(), from, to).push(text.last())
    }
}

/// A text with a line break element in the place of each newline.
pub open spec fn with_breaks(text: Seq<char>) -> Seq<char> {
    replaced(text, '\n', "<br>"@)
}

/// Calls `html_escape::encode_quoted_attribute`, which puts an entity in the
/// place of each `&`, `<`, `>`, `"` and `'` and leaves every other character
/// as it is.
#[verifier::external_body]
pub(crate) fn escape(text: &str) -> (out: String)
    ensures
        out@ == escaped(text@),
{
    html_escape::encode_quoted_attribute(text).into_owned()
}

/// Calls `char::is_whitespace`, which tells whether a character has the
/// Unicode property White_Space. The contract only gives the answer its
/// name.
#[verifier::external_body]
fn is_whitespace(c: char) -> (r: bool)
    ensures
        r == white_space(c),
{
    c.is_whitespace()
}

/// Calls `str::trim`, which hands out the part of a string between the white
/// space at its start and the white space at its end, white space being the
/// characters with the Unicode property White_Space.
#[verifier::external_body]
fn trim<'a>(text: &'a str) -> (out: &'a str)
    ensures
        out@ == trimmed(text@),
{
    text.trim()
}

/// Calls `str::replace` with a character to look for: every occurrence of
/// `from` gives way to `to`.
#[verifier::external_body]
fn replace(text: &str, from: char, to: &str) -> (out: String)
    ensures
        out@ == replaced(text@, from, to@),
{
    text.replace(from, to)
}

/// Tells whether a text holds nothing but white space.
pub fn is_blank(text: &str) -> (r: bool)
    ensures
        r == blank(text@),
{
    broadcast use vstd::string::group_string_axioms;

    let mut rest = text.chars();
    let ghost mut seen: Seq<char> = Seq::empty();
    loop
        invariant
            text@ == seen + rest.remaining(),
            blank(seen),
            rest.decrease() is Some,
        decreases rest.decrease()->0,
    {
        let ghost before = rest.remaining();
        match rest.next() {
            Some(c) => {
                if !is_whitespace(c) {
                    assert(text@[seen.len() as int] == c);
                    return false;
                }
                proof {
                    assert(seen.push(c) + before.drop_first() =~= seen + before);
                    seen = seen.push(c);
                }
            },
            None => {
                assert(seen + before =~= seen);
                return true;
            },
        }
    }
}

/// The image of a custom emoji. `path` is where the image lies; `enlarged`
/// adds the class that shows it larger.
pub open spec fn emoji_markup(name: Seq<char>, path: Seq<char>, enlarged: bool) -> Seq<char> {
    "<img src=\""@ + path + "\" alt=\""@ + name + "\" class=\"emoji"@ + (if enlarged {
        " wumboji"@
    } else {
        Seq::empty()
    }) + "\" title=\""@ + name + "\"></img>"@
}

/// The mention of a user by name.
pub open spec fn user_markup(name: Seq<char>) -> Seq<char> {
    "<span class=\"user\">@"@ + name + "</span>"@
}

/// The colour of a role that has none of its own.
pub open spec fn role_color(color: Option<Seq<char>>) -> Seq<char> {
    match color {
        Some(c) => c,
        None => "#afafaf"@,
    }
}

/// The mention of a role by name, in its colour.
pub open spec fn role_markup(name: Seq<char>, color: Option<Seq<char>>) -> Seq<char> {
    "<div class=\"role\" style=\"color: "@ + role_color(color) + "\">@"@ + name
        + "<span style=\"background-color: "@ + role_color(color) + "\"></span></div>"@
}

/// The mention of a channel by name; it carries the channel's identifier.
pub open spec fn channel_markup(id: Seq<char>, name: Seq<char>) -> Seq<char> {
    "<span class=\"channel\" data-id=\""@ + id + "\">#"@ + name + "</span>"@
}

/// A link that opens in a new browsing context.
pub open spec fn hyperlink_markup(label: Seq<char>, target: Seq<char>) -> Seq<char> {
    "<a href=\""@ + target + "\" target=\"_blank\">"@ + label + "</a>"@
}

/// A block of code: trimmed, with line breaks for newlines.
pub open spec fn multiline_code_markup(raw: Seq<char>) -> Seq<char> {
    "<pre class=\"multiline_code\">"@ + with_breaks(trimmed(raw)) + "</pre>"@
}

/// Code within a line, with line breaks for newlines.
pub open spec fn inline_code_markup(raw: Seq<char>) -> Seq<char> {
    "<span class=\"inline_code\">"@ + with_breaks(raw) + "</span>"@
}

/// The tag that opens a container.
pub open spec fn open_tag(kind: Wrap) -> Seq<char> {
    match kind {
        Wrap::Blockquote => "<blockquote>"@,
        Wrap::Spoiler => "<span class=\"spoiler\">"@,
        Wrap::Underline => "<u>"@,
        Wrap::Strikethrough => "<span class=\"strikethrough\">"@,
        Wrap::Bold => "<strong>"@,
        Wrap::Italics => "<em>"@,
    }
}

/// The tag that closes a container.
pub open spec fn close_tag(kind: Wrap) -> Seq<char> {
    match kind {
        Wrap::Blockquote => "</blockquote>"@,
        Wrap::Spoiler => "</span>"@,
        Wrap::Underline => "</u>"@,
        Wrap::Strikethrough => "</span>"@,
        Wrap::Bold => "</strong>"@,
        Wrap::Italics => "</em>"@,
    }
}

/// A container around the HTML of its children.
pub open spec fn wrap_markup(kind: Wrap, inner: Seq<char>) -> Seq<char> {
    open_tag(kind) + inner + close_tag(kind)
}

/// A line break.
pub open spec fn break_markup() -> Seq<char> {
    "<br>"@
}

/// Writes the image of a custom emoji that lies at `path`.
pub fn emoji_html(name: &str, path: &str, enlarged: bool) -> (out: String)
    ensures
        out@ == emoji_markup(name@, path@, enlarged),
{
    let mut out = String::from_str("<img src=\"");
    out.append(path);
    out.append("\" alt=\"");
    out.append(name);
    out.append("\" class=\"emoji");
    if enlarged {
        out.append(" wumboji");
    }
    out.append("\" title=\"");
    out.append(name);
    out.append("\"></img>");
    proof {
        assert(out@ =~= emoji_markup(name@, path@, enlarged));
    }
    out
}

/// Writes the mention of the user called `name`.
pub fn user_html(name: &str) -> (out: String)
    ensures
        out@ == user_markup(name@),
{
    let mut out = String::from_str("<span class=\"user\">@");
    out.append(name);
    out.append("</span>");
    out
}

/// The characters of a colour, where there is one.
pub open spec fn color_view(color: Option<String>) -> Option<Seq<char>> {
    match color {
        Some(c) => Some(c@),
        None => None,
    }
}

/// Writes the mention of the role called `name`, in `color` or in grey.
pub fn role_html(name: &str, color: Option<String>) -> (out: String)
    ensures
        out@ == role_markup(name@, color_view(color)),
{
    let shade = match color {
        Some(c) => c,
        None => String::from_str("#afafaf"),
    };
    let mut out = String::from_str("<div class=\"role\" style=\"color: ");
    out.append(shade.as_str());
    out.append("\">@");
    out.append(name);
    out.append("<span style=\"background-color: ");
    out.append(shade.as_str());
    out.append("\"></span></div>");
    out
}

/// Writes the mention of the channel `id`, which is called `name`.
pub fn channel_html(id: &str, name: &str) -> (out: String)
    ensures
        out@ == channel_markup(id@, name@),
{
    let mut out = String::from_str("<span class=\"channel\" data-id=\"");
    out.append(id);
    out.append("\">#");
    out.append(name);
    out.append("</span>");
    out
}

/// Writes a link to `target` that reads `label`.
pub fn hyperlink_html(label: &str, target: &str) -> (out: String)
    ensures
        out@ == hyperlink_markup(label@, target@),
{
    let mut out = String::from_str("<a href=\"");
    out.append(target);
    out.append("\" target=\"_blank\">");
    out.append(label);
    out.append("</a>");
    out
}

/// Writes a block of code.
pub fn multiline_code_html(raw: &str) -> (out: String)
    ensures
        out@ == multiline_code_markup(raw@),
{
    let body = replace(trim(raw), '\n', "<br>");
    let mut out = String::from_str("<pre class=\"multiline_code\">");
    out.append(body.as_str());
    out.append("</pre>");
    out
}

/// Writes code within a line.
pub fn inline_code_html(raw: &str) -> (out: String)
    ensures
        out@ == inline_code_markup(raw@),
{
    let body = replace(raw, '\n', "<br>");
    let mut out = String::from_str("<span class=\"inline_code\">");
    out.append(body.as_str());
    out.append("</span>");
    out
}

/// Writes a container around `inner`, the HTML of its children.
pub fn wrap_html(kind: Wrap, inner: &str) -> (out: String)
    ensures
        out@ == wrap_markup(kind, inner@),
{
    let mut out = match kind {
        Wrap::Blockquote => String::from_str("<blockquote>"),
        Wrap::Spoiler => String::from_str("<span class=\"spoiler\">"),
        Wrap::Underline => String::from_str("<u>"),
        Wrap::Strikethrough => String::from_str("<span class=\"strikethrough\">"),
        Wrap::Bold => String::from_str("<strong>"),
        Wrap::Italics => String::from_str("<em>"),
    };
    out.append(inner);
    match kind {
        Wrap::Blockquote => out.append("</blockquote>"),
        Wrap::Spoiler => out.append("</span>"),
        Wrap::Underline => out.append("</u>"),
        Wrap::Strikethrough => out.append("</span>"),
        Wrap::Bold => out.append("</strong>"),
        Wrap::Italics => out.append("</em>"),
    }
    out
}

} // verus!
