//! Rendering a tree as HTML.

use vstd::prelude::*;

use crate::markup::{
    blank, break_markup, channel_html, channel_markup, color_view, emoji_html, emoji_markup,
    escape, escaped, hyperlink_html, hyperlink_markup, inline_code_html, inline_code_markup,
    is_blank, multiline_code_html, multiline_code_markup, role_html, role_markup, user_html,
    user_markup, wrap_html, wrap_markup,
};
use crate::parser::{node_of, nodes_of, Expression, Node, Wrap};

verus! {

/// The resolver can be asked for any identifier.
pub open spec fn total<F: Fn(&str) -> (String, Option<String>)>(resolver: F) -> bool {
    forall|asked: &str| call_requires(resolver, (asked,))
}

/// The resolver, asked for `id`, may answer `name` and `extra`.
pub open spec fn answers<F: Fn(&str) -> (String, Option<String>)>(
    resolver: F,
    id: Seq<char>,
    name: Seq<char>,
    extra: Option<Seq<char>>,
) -> bool {
    exists|asked: &str, answer: (String, Option<String>)|
        #![trigger call_ensures(resolver, (asked,), answer)]
        asked@ == id && call_ensures(resolver, (asked,), answer) && answer.0@ == name
            && color_view(answer.1) == extra
}

/// The resolver, asked for `id`, may answer `name`, whatever it adds.
pub open spec fn names<F: Fn(&str) -> (String, Option<String>)>(
    resolver: F,
    id: Seq<char>,
    name: Seq<char>,
) -> bool {
    exists|asked: &str, answer: (String, Option<String>)|
        #![trigger call_ensures(resolver, (asked,), answer)]
        asked@ == id && call_ensures(resolver, (asked,), answer) && answer.0@ == name
}

/// The resolver answers every identifier with the identifier itself and
/// nothing more.
pub open spec fn echoes<F: Fn(&str) -> (String, Option<String>)>(resolver: F) -> bool {
    forall|asked: &str, answer: (String, Option<String>)|
        #![trigger call_ensures(resolver, (asked,), answer)]
        call_ensures(resolver, (asked,), answer) ==> answer.0@ == asked@ && answer.1 is None
}

/// A node that does not stand in the way of larger emoji: a custom emoji, or
/// text that is blank.
pub open spec fn lone_emoji(node: Node) -> bool {
    match node {
        Node::CustomEmoji(_, _) => true,
        Node::Text(text) => blank(text),
        _ => false,
    }
}

/// The message holds custom emoji and blank text, and nothing else.
pub open spec fn isolated(nodes: Seq<Node>) -> bool {
    forall|i: int| 0 <= i < nodes.len() ==> lone_emoji(#[trigger] nodes[i])
}

/// `out` is the image of the custom emoji `name`, at a path that `emoji` may
/// answer for `id`.
pub open spec fn renders_emoji<A: Fn(&str) -> (String, Option<String>)>(
    name: Seq<char>,
    id: Seq<char>,
    enlarged: bool,
    emoji: A,
    out: Seq<char>,
) -> bool {
    exists|path: Seq<char>|
        #![trigger emoji_markup(name, path, enlarged)]
        names(emoji, id, path) && out == emoji_markup(name, path, enlarged)
}

/// `out` is the mention of a user by a name that `user` may answer for `id`.
pub open spec fn renders_user<B: Fn(&str) -> (String, Option<String>)>(
    id: Seq<char>,
    user: B,
    out: Seq<char>,
) -> bool {
    exists|name: Seq<char>| #![trigger user_markup(name)] names(user, id, name) && out == user_markup(name)
}

/// `out` is the mention of a role by a name and in a colour that `role` may
/// answer for `id`.
pub open spec fn renders_role<C: Fn(&str) -> (String, Option<String>)>(
    id: Seq<char>,
    role: C,
    out: Seq<char>,
) -> bool {
    exists|name: Seq<char>, color: Option<Seq<char>>|
        #![trigger role_markup(name, color)]
        answers(role, id, name, color) && out == role_markup(name, color)
}

/// `out` is the mention of the channel `id` by a name that `channel` may
/// answer for it.
pub open spec fn renders_channel<D: Fn(&str) -> (String, Option<String>)>(
    id: Seq<char>,
    channel: D,
    out: Seq<char>,
) -> bool {
    exists|name: Seq<char>|
        #![trigger channel_markup(id, name)]
        names(channel, id, name) && out == channel_markup(id, name)
}

/// `out` is an HTML rendering of `node` with the four resolvers.
///
/// An emoji, a user, a role and a channel are written with what their
/// resolver answers for their identifier. A container is written around a
/// rendering of its children. `enlarged` goes to every emoji, however deep.
pub open spec fn renders_node<A, B, C, D>(
    node: Node,
    enlarged: bool,
    emoji: A,
    user: B,
    role: C,
    channel: D,
    out: Seq<char>,
) -> bool where
    A: Fn(&str) -> (String, Option<String>),
    B: Fn(&str) -> (String, Option<String>),
    C: Fn(&str) -> (String, Option<String>),
    D: Fn(&str) -> (String, Option<String>),

    decreases node,
{
    match node {
        Node::Text(text) => out == escaped(text),
        Node::CustomEmoji(name, id) => renders_emoji(name, id, enlarged, emoji, out),
        Node::User(id) => renders_user(id, user, out),
        Node::Role(id) => renders_role(id, role, out),
        Node::Channel(id) => renders_channel(id, channel, out),
        Node::Hyperlink(label, target) => out == hyperlink_markup(label, target),
        Node::MultilineCode(raw) => out == multiline_code_markup(raw),
        Node::InlineCode(raw) => out == inline_code_markup(raw),
        Node::Blockquote(c) => exists|inner: Seq<char>|
            #![trigger wrap_markup(Wrap::Blockquote, inner)]
            renders(c, enlarged, emoji, user, role, channel, inner) && out == wrap_markup(
                Wrap::Blockquote,
                inner,
            ),
        Node::Spoiler(c) => exists|inner: Seq<char>|
            #![trigger wrap_markup(Wrap::Spoiler, inner)]
            renders(c, enlarged, emoji, user, role, channel, inner) && out == wrap_markup(
                Wrap::Spoiler,
                inner,
            ),
        Node::Underline(c) => exists|inner: Seq<char>|
            #![trigger wrap_markup(Wrap::Underline, inner)]
            renders(c, enlarged, emoji, user, role, channel, inner) && out == wrap_markup(
                Wrap::Underline,
                inner,
            ),
        Node::Strikethrough(c) => exists|inner: Seq<char>|
            #![trigger wrap_markup(Wrap::Strikethrough, inner)]
            renders(c, enlarged, emoji, user, role, channel, inner) && out == wrap_markup(
                Wrap::Strikethrough,
                inner,
            ),
        Node::Bold(c) => exists|inner: Seq<char>|
            #![trigger wrap_markup(Wrap::Bold, inner)]
            renders(c, enlarged, emoji, user, role, channel, inner) && out == wrap_markup(
                Wrap::Bold,
                inner,
            ),
        Node::Italics(c) => exists|inner: Seq<char>|
            #![trigger wrap_markup(Wrap::Italics, inner)]
            renders(c, enlarged, emoji, user, role, channel, inner) && out == wrap_markup(
                Wrap::Italics,
                inner,
            ),
        Node::Newline => out == break_markup(),
    }
}

/// `out` is an HTML rendering of `nodes` with the four resolvers: renderings
/// of the nodes, one behind the other.
pub open spec fn renders<A, B, C, D>(
    nodes: Seq<Node>,
    enlarged: bool,
    emoji: A,
    user: B,
    role: C,
    channel: D,
    out: Seq<char>,
) -> bool where
    A: Fn(&str) -> (String, Option<String>),
    B: Fn(&str) -> (String, Option<String>),
    C: Fn(&str) -> (String, Option<String>),
    D: Fn(&str) -> (String, Option<String>),

    decreases nodes,
{
    if nodes.len() == 0 {
        out == Seq::<char>::empty()
    } else {
        exists|head: Seq<char>, last: Seq<char>|
            #![auto]
            renders(nodes.drop_last(), enlarged, emoji, user, role, channel, head) && renders_node(
                nodes.last(),
                enlarged,
                emoji,
                user,
                role,
                channel,
                last,
            ) && out == head + last
    }
}

/// The HTML of a node where every identifier resolves to itself.
pub open spec fn html_node(node: Node, enlarged: bool) -> Seq<char>
    decreases node,
{
    match node {
        Node::Text(text) => escaped(text),
        Node::CustomEmoji(name, id) => emoji_markup(name, id, enlarged),
        Node::User(id) => user_markup(id),
        Node::Role(id) => role_markup(id, None),
        Node::Channel(id) => channel_markup(id, id),
        Node::Hyperlink(label, target) => hyperlink_markup(label, target),
        Node::MultilineCode(raw) => multiline_code_markup(raw),
        Node::InlineCode(raw) => inline_code_markup(raw),
        Node::Blockquote(c) => wrap_markup(Wrap::Blockquote, html(c, enlarged)),
        Node::Spoiler(c) => wrap_markup(Wrap::Spoiler, html(c, enlarged)),
        Node::Underline(c) => wrap_markup(Wrap::Underline, html(c, enlarged)),
        Node::Strikethrough(c) => wrap_markup(Wrap::Strikethrough, html(c, enlarged)),
        Node::Bold(c) => wrap_markup(Wrap::Bold, html(c, enlarged)),
        Node::Italics(c) => wrap_markup(Wrap::Italics, html(c, enlarged)),
        Node::Newline => break_markup(),
    }
}

/// The HTML of a sequence of nodes where every identifier resolves to
/// itself: the HTML of each node, one behind the other.
pub open spec fn html(nodes: Seq<Node>, enlarged: bool) -> Seq<char>
    decreases nodes,
{
    if nodes.len() == 0 {
        Seq::empty()
    } else {
        html(nodes.drop_last(), enlarged) + html_node(nodes.last(), enlarged)
    }
}

/// The HTML of a message of one node is the HTML of the node.
pub proof fn lemma_html_one(node: Node, enlarged: bool)
    ensures
        html(seq![node], enlarged) == html_node(node, enlarged),
{
    let nodes = seq![node];
    assert(nodes.drop_last() =~= Seq::<Node>::empty());
    assert(nodes.last() == node);
    assert(html(nodes.drop_last(), enlarged) =~= Seq::<char>::empty());
    assert(html(nodes, enlarged) =~= html(nodes.drop_last(), enlarged) + html_node(
        nodes.last(),
        enlarged,
    ));
}

/// Under resolvers that echo, a rendering of a node is its HTML.
pub proof fn lemma_echo_node<A, B, C, D>(
    node: Node,
    enlarged: bool,
    emoji: A,
    user: B,
    role: C,
    channel: D,
    out: Seq<char>,
) where
    A: Fn(&str) -> (String, Option<String>),
    B: Fn(&str) -> (String, Option<String>),
    C: Fn(&str) -> (String, Option<String>),
    D: Fn(&str) -> (String, Option<String>),

    requires
        echoes(emoji),
        echoes(user),
        echoes(role),
        echoes(channel),
        renders_node(node, enlarged, emoji, user, role, channel, out),
    ensures
        out == html_node(node, enlarged),
    decreases node,
{
    match node {
        Node::Blockquote(c) => {
            let inner = choose|inner: Seq<char>|
                renders(c, enlarged, emoji, user, role, channel, inner) && out == wrap_markup(
                    Wrap::Blockquote,
                    inner,
                );
            lemma_echo(c, enlarged, emoji, user, role, channel, inner);
        },
        Node::Spoiler(c) => {
            let inner = choose|inner: Seq<char>|
                renders(c, enlarged, emoji, user, role, channel, inner) && out == wrap_markup(
                    Wrap::Spoiler,
                    inner,
                );
            lemma_echo(c, enlarged, emoji, user, role, channel, inner);
        },
        Node::Underline(c) => {
            let inner = choose|inner: Seq<char>|
                renders(c, enlarged, emoji, user, role, channel, inner) && out == wrap_markup(
                    Wrap::Underline,
                    inner,
                );
            lemma_echo(c, enlarged, emoji, user, role, channel, inner);
        },
        Node::Strikethrough(c) => {
            let inner = choose|inner: Seq<char>|
                renders(c, enlarged, emoji, user, role, channel, inner) && out == wrap_markup(
                    Wrap::Strikethrough,
                    inner,
                );
            lemma_echo(c, enlarged, emoji, user, role, channel, inner);
        },
        Node::Bold(c) => {
            let inner = choose|inner: Seq<char>|
                renders(c, enlarged, emoji, user, role, channel, inner) && out == wrap_markup(
                    Wrap::Bold,
                    inner,
                );
            lemma_echo(c, enlarged, emoji, user, role, channel, inner);
        },
        Node::Italics(c) => {
            let inner = choose|inner: Seq<char>|
                renders(c, enlarged, emoji, user, role, channel, inner) && out == wrap_markup(
                    Wrap::Italics,
                    inner,
                );
            lemma_echo(c, enlarged, emoji, user, role, channel, inner);
        },
        _ => {},
    }
}

/// Under resolvers that echo, a rendering of a sequence of nodes is its
/// HTML.
pub proof fn lemma_echo<A, B, C, D>(
    nodes: Seq<Node>,
    enlarged: bool,
    emoji: A,
    user: B,
    role: C,
    channel: D,
    out: Seq<char>,
) where
    A: Fn(&str) -> (String, Option<String>),
    B: Fn(&str) -> (String, Option<String>),
    C: Fn(&str) -> (String, Option<String>),
    D: Fn(&str) -> (String, Option<String>),

    requires
        echoes(emoji),
        echoes(user),
        echoes(role),
        echoes(channel),
        renders(nodes, enlarged, emoji, user, role, channel, out),
    ensures
        out == html(nodes, enlarged),
    decreases nodes,
{
    if nodes.len() > 0 {
        let (head, last) = choose|head: Seq<char>, last: Seq<char>|
            renders(nodes.drop_last(), enlarged, emoji, user, role, channel, head) && renders_node(
                nodes.last(),
                enlarged,
                emoji,
                user,
                role,
                channel,
                last,
            ) && out == head + last;
        lemma_echo(nodes.drop_last(), enlarged, emoji, user, role, channel, head);
        lemma_echo_node(nodes.last(), enlarged, emoji, user, role, channel, last);
    }
}

/// A rendering of a sequence of nodes and a rendering of one more node make
/// a rendering of the longer sequence.
pub proof fn lemma_renders_push<A, B, C, D>(
    nodes: Seq<Node>,
    enlarged: bool,
    emoji: A,
    user: B,
    role: C,
    channel: D,
    head: Seq<char>,
    last: Seq<char>,
) where
    A: Fn(&str) -> (String, Option<String>),
    B: Fn(&str) -> (String, Option<String>),
    C: Fn(&str) -> (String, Option<String>),
    D: Fn(&str) -> (String, Option<String>),

    requires
        nodes.len() > 0,
        renders(nodes.drop_last(), enlarged, emoji, user, role, channel, head),
        renders_node(nodes.last(), enlarged, emoji, user, role, channel, last),
    ensures
        renders(nodes, enlarged, emoji, user, role, channel, head + last),
{
}

/// Tells whether the message holds custom emoji and blank text, and nothing
/// else.
pub fn is_isolated(ast: &Vec<Expression>) -> (r: bool)
    ensures
        r == isolated(nodes_of(ast@)),
{
    let mut i: usize = 0;
    while i < ast.len()
        invariant
            i <= ast.len(),
            forall|j: int| 0 <= j < i ==> lone_emoji(#[trigger] nodes_of(ast@)[j]),
        decreases ast.len() - i,
    {
        let alone = match &ast[i] {
            Expression::CustomEmoji(_, _) => true,
            Expression::Text(text) => is_blank(*text),
            _ => false,
        };
        if !alone {
            assert(!lone_emoji(nodes_of(ast@)[i as int]));
            return false;
        }
        i = i + 1;
    }
    true
}

/// Renders one expression.
pub fn render<A, B, C, D>(
    e: &Expression,
    emoji: &A,
    user: &B,
    role: &C,
    channel: &D,
    enlarged: bool,
) -> (out: String) where
    A: Fn(&str) -> (String, Option<String>),
    B: Fn(&str) -> (String, Option<String>),
    C: Fn(&str) -> (String, Option<String>),
    D: Fn(&str) -> (String, Option<String>),

    requires
        total(*emoji),
        total(*user),
        total(*role),
        total(*channel),
    ensures
        renders_node(node_of(*e), enlarged, *emoji, *user, *role, *channel, out@),
    decreases e,
{
    match e {
        Expression::Text(text) => escape(*text),
        Expression::CustomEmoji(name, id) => {
            let asked = id.as_str();
            let answer = emoji(asked);
            assert(names(*emoji, id@, answer.0@));
            emoji_html(*name, answer.0.as_str(), enlarged)
        },
        Expression::User(id) => {
            let answer = user(*id);
            assert(names(*user, id@, answer.0@));
            user_html(answer.0.as_str())
        },
        Expression::Role(id) => {
            let answer = role(*id);
            assert(answers(*role, id@, answer.0@, color_view(answer.1)));
            role_html(answer.0.as_str(), answer.1)
        },
        Expression::Channel(id) => {
            let answer = channel(*id);
            assert(names(*channel, id@, answer.0@));
            channel_html(*id, answer.0.as_str())
        },
        Expression::Hyperlink(label, target) => hyperlink_html(*label, *target),
        Expression::MultilineCode(raw) => multiline_code_html(*raw),
        Expression::InlineCode(raw) => inline_code_html(*raw),
        Expression::Blockquote(c) => {
            let inner = traverse(c, emoji, user, role, channel, enlarged);
            proof {
                crate::parser::lemma_node_of_wrap(Wrap::Blockquote, *c);
            }
            wrap_html(Wrap::Blockquote, inner.as_str())
        },
        Expression::Spoiler(c) => {
            let inner = traverse(c, emoji, user, role, channel, enlarged);
            proof {
                crate::parser::lemma_node_of_wrap(Wrap::Spoiler, *c);
            }
            wrap_html(Wrap::Spoiler, inner.as_str())
        },
        Expression::Underline(c) => {
            let inner = traverse(c, emoji, user, role, channel, enlarged);
            proof {
                crate::parser::lemma_node_of_wrap(Wrap::Underline, *c);
            }
            wrap_html(Wrap::Underline, inner.as_str())
        },
        Expression::Strikethrough(c) => {
            let inner = traverse(c, emoji, user, role, channel, enlarged);
            proof {
                crate::parser::lemma_node_of_wrap(Wrap::Strikethrough, *c);
            }
            wrap_html(Wrap::Strikethrough, inner.as_str())
        },
        Expression::Bold(c) => {
            let inner = traverse(c, emoji, user, role, channel, enlarged);
            proof {
                crate::parser::lemma_node_of_wrap(Wrap::Bold, *c);
            }
            wrap_html(Wrap::Bold, inner.as_str())
        },
        Expression::Italics(c) => {
            let inner = traverse(c, emoji, user, role, channel, enlarged);
            proof {
                crate::parser::lemma_node_of_wrap(Wrap::Italics, *c);
            }
            wrap_html(Wrap::Italics, inner.as_str())
        },
        Expression::Newline => String::from_str("<br>"),
    }
}

/// Renders the expressions of `ast` one behind the other. `enlarged` says
/// whether emoji are shown larger.
pub fn traverse<A, B, C, D>(
    ast: &Vec<Expression>,
    emoji: &A,
    user: &B,
    role: &C,
    channel: &D,
    enlarged: bool,
) -> (out: String) where
    A: Fn(&str) -> (String, Option<String>),
    B: Fn(&str) -> (String, Option<String>),
    C: Fn(&str) -> (String, Option<String>),
    D: Fn(&str) -> (String, Option<String>),

    requires
        total(*emoji),
        total(*user),
        total(*role),
        total(*channel),
    ensures
        renders(nodes_of(ast@), enlarged, *emoji, *user, *role, *channel, out@),
    decreases ast,
{
    let mut out = String::new();
    let mut i: usize = 0;
    let ghost nodes = nodes_of(ast@);
    while i < ast.len()
        invariant
            i <= ast.len(),
            nodes == nodes_of(ast@),
            total(*emoji),
            total(*user),
            total(*role),
            total(*channel),
            renders(nodes.take(i as int), enlarged, *emoji, *user, *role, *channel, out@),
        decreases ast.len() - i,
    {
        let piece = render(&ast[i], emoji, user, role, channel, enlarged);
        let ghost head = out@;
        proof {
            let upto = nodes.take(i + 1);
            assert(upto.drop_last() =~= nodes.take(i as int));
            assert(upto.last() == node_of(ast@[i as int]));
        }
        out.append(piece.as_str());
        proof {
            let upto = nodes.take(i + 1);
            assert(renders_node(upto.last(), enlarged, *emoji, *user, *role, *channel, piece@));
            assert(renders(upto.drop_last(), enlarged, *emoji, *user, *role, *channel, head));
            lemma_renders_push(upto, enlarged, *emoji, *user, *role, *channel, head, piece@);
        }
        i = i + 1;
    }
    proof {
        assert(nodes.take(ast.len() as int) =~= nodes);
    }
    out
}

/// Renders a message as HTML, with a resolver for each kind of identifier.
///
/// `emoji` is asked for the identifier of a custom emoji with its extension
/// and answers the path of its image. `user`, `role` and `channel` are asked
/// for an identifier and answer a name; `role` may add a colour. Emoji are
/// shown larger where the message holds nothing but emoji and blank text.
pub fn to_html_with_callbacks(
    ast: Vec<Expression>,
    emoji: impl Fn(&str) -> (String, Option<String>),
    user: impl Fn(&str) -> (String, Option<String>),
    role: impl Fn(&str) -> (String, Option<String>),
    channel: impl Fn(&str) -> (String, Option<String>),
) -> (out: String)
    requires
        total(emoji),
        total(user),
        total(role),
        total(channel),
    ensures
        renders(nodes_of(ast@), isolated(nodes_of(ast@)), emoji, user, role, channel, out@),
{
    let enlarged = is_isolated(&ast);
    traverse(&ast, &emoji, &user, &role, &channel, enlarged)
}

/// Renders a message as HTML. Every identifier stands for itself: an emoji
/// lies at the path that is its identifier, and a user, a role and a channel
/// are called by theirs.
pub fn to_html(ast: Vec<Expression>) -> (out: String)
    ensures
        out@ == html(nodes_of(ast@), isolated(nodes_of(ast@))),
{
    let echo = |x: &str| -> (r: (String, Option<String>))
        ensures
            r.0@ == x@,
            r.1 is None,
        { (x.to_owned(), None) };
    let enlarged = is_isolated(&ast);
    let out = traverse(&ast, &echo, &echo, &echo, &echo, enlarged);
    proof {
        lemma_echo(nodes_of(ast@), enlarged, echo, echo, echo, echo, out@);
    }
    out
}

} // verus!
