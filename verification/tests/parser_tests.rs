use discord_markdown::parser::parse;
use discord_markdown::parser::parse_with_md_hyperlinks;
use discord_markdown::parser::Expression::{
    Blockquote, Bold, Channel, CustomEmoji, Hyperlink, InlineCode, Italics, MultilineCode,
    Newline, Role, Spoiler, Strikethrough, Text, Underline, User,
};

#[test]
fn parser_basic() {
    // Tests the basic parsers
    assert_eq!(parse("_foo_ *bar*"), vec![
        Italics(vec![Text("foo")]), Text(" "), Italics(vec![Text("bar")])
    ]);
    assert_eq!(parse("**foo bar**"), vec![Bold(vec![Text("foo bar")])]);
    assert_eq!(parse("__foo bar__"), vec![Underline(vec![Text("foo bar")])]);
    assert_eq!(parse("~~foo bar~~"), vec![Strikethrough(vec![Text("foo bar")])]);
    assert_eq!(parse("||foo bar||"), vec![Spoiler(vec![Text("foo bar")])]);
    assert_eq!(parse("`foo` ``foo ` bar``"), vec![
        InlineCode("foo"), Text(" "), InlineCode("foo ` bar")
    ]);
    assert_eq!(parse("```foo\nbar```"), vec![MultilineCode("foo\nbar")]);
    assert_eq!(parse("> foo bar"), vec![Blockquote(vec![Text("foo bar")])]);
}

#[test]
fn parse_regex() {
    // Tests the parsers that use regex
    assert_eq!(parse("<#123456789123456789>"), vec![Channel("123456789123456789")]);
    assert_eq!(parse("<@123456789123456789><@!123456789123456789>"), vec![
        User("123456789123456789"),
        User("123456789123456789"),
    ]);
    assert_eq!(parse("<@&123456789123456789>"), vec![Role("123456789123456789")]);
    assert_eq!(parse("<a:foo:123456789123456789><:foo:123456789123456789>"), vec![
        CustomEmoji("foo", "123456789123456789.gif".to_owned()),
        CustomEmoji("foo", "123456789123456789.png".to_owned()),
    ]);
}

#[test]
fn empty_input_gives_no_nodes() {
    assert_eq!(parse(""), vec![]);
}

#[test]
fn plain_text_is_one_node() {
    assert_eq!(parse("hello world"), vec![Text("hello world")]);
    assert_eq!(parse("caf\u{e9} \u{1f980} na\u{ef}ve"), vec![Text("caf\u{e9} \u{1f980} na\u{ef}ve")]);
}

#[test]
fn newlines_split_plain_text() {
    assert_eq!(parse("a\nb"), vec![Text("a"), Newline, Text("b")]);
    assert_eq!(parse("\n"), vec![Newline]);
    assert_eq!(parse("a\n\nb\n"), vec![Text("a"), Newline, Newline, Text("b"), Newline]);
}

#[test]
fn closing_delimiter_is_the_nearest() {
    assert_eq!(parse("**a** b **c**"), vec![
        Bold(vec![Text("a")]),
        Text(" b "),
        Bold(vec![Text("c")]),
    ]);
    assert_eq!(parse("||a|| ||b||"), vec![
        Spoiler(vec![Text("a")]),
        Text(" "),
        Spoiler(vec![Text("b")]),
    ]);
}

#[test]
fn backslash_keeps_the_next_character() {
    assert_eq!(parse("\\*foo\\*"), vec![Text("*"), Text("foo"), Text("*")]);
    assert_eq!(parse("a\\_b_"), vec![Text("a"), Text("_"), Text("b_")]);
}

#[test]
fn backslash_behind_wide_characters() {
    assert_eq!(parse("\u{e9}\\*a*"), vec![Text("\u{e9}"), Text("*"), Text("a*")]);
    assert_eq!(parse("\\\u{30c4}*a*"), vec![Text("\u{30c4}"), Italics(vec![Text("a")])]);
}

#[test]
fn backslash_at_the_end_is_text() {
    assert_eq!(parse("foo\\"), vec![Text("foo\\")]);
    assert_eq!(parse("\\"), vec![Text("\\")]);
}

#[test]
fn shrug_is_kept() {
    assert_eq!(parse("\u{af}\\_(\u{30c4})_/\u{af}"), vec![Text("\u{af}\\_(\u{30c4})_/\u{af}")]);
    assert_eq!(parse("well \u{af}\\_(\u{30c4})_/\u{af} ok"), vec![
        Text("well "),
        Text("\u{af}\\_(\u{30c4})_/\u{af}"),
        Text(" ok"),
    ]);
}

#[test]
fn blockquote_only_at_line_start() {
    assert_eq!(parse("foo > bar"), vec![Text("foo > bar")]);
    assert_eq!(parse("> bar"), vec![Blockquote(vec![Text("bar")])]);
    assert_eq!(parse("foo\n> bar"), vec![
        Text("foo"),
        Newline,
        Blockquote(vec![Text("bar")]),
    ]);
}

#[test]
fn blockquote_lines() {
    assert_eq!(parse("> a\n> b"), vec![
        Blockquote(vec![Text("a")]),
        Blockquote(vec![Text("b")]),
    ]);
    assert_eq!(parse("> \nx"), vec![Blockquote(vec![Newline]), Text("x")]);
    assert_eq!(parse("> "), vec![Text("> ")]);
    assert_eq!(parse("> a\nb"), vec![Blockquote(vec![Text("a")]), Text("b")]);
}

#[test]
fn blockquote_inside_a_container_follows_a_newline() {
    assert_eq!(parse("_> foo_"), vec![Italics(vec![Text("> foo")])]);
    assert_eq!(parse("*bar\n> foo*"), vec![
        Italics(vec![Text("bar"), Newline, Blockquote(vec![Text("foo")])]),
    ]);
}

#[test]
fn no_blockquote_behind_verbatim_text() {
    assert_eq!(parse("\\a> b"), vec![Text("a"), Text("> b")]);
    assert_eq!(parse("\u{af}\\_(\u{30c4})_/\u{af}> b"), vec![
        Text("\u{af}\\_(\u{30c4})_/\u{af}"),
        Text("> b"),
    ]);
}

#[test]
fn mentions() {
    assert_eq!(parse("<@!123>"), vec![User("123")]);
    assert_eq!(parse("<@123>"), vec![User("123")]);
    assert_eq!(parse("<@&7>"), vec![Role("7")]);
    assert_eq!(parse("<#42>"), vec![Channel("42")]);
    assert_eq!(parse("<@abc>"), vec![Text("<@abc>")]);
    assert_eq!(parse("hi <@1>!"), vec![Text("hi "), User("1"), Text("!")]);
}

#[test]
fn identifiers_are_what_the_pattern_captures() {
    assert_eq!(parse("<@\u{661}\u{662}>"), vec![User("\u{661}\u{662}")]);
    assert_eq!(parse("<:caf\u{e9}_1:7>"), vec![CustomEmoji("caf\u{e9}_1", "7.png".to_owned())]);
    assert_eq!(parse("<:a b:7>"), vec![Text("<:a b:7>")]);
}

#[test]
fn emoji_extension() {
    assert_eq!(parse("<a:foo:9>"), vec![CustomEmoji("foo", "9.gif".to_owned())]);
    assert_eq!(parse("<:foo:9>"), vec![CustomEmoji("foo", "9.png".to_owned())]);
    assert_eq!(parse("<:foo:>"), vec![Text("<:foo:>")]);
}

#[test]
fn doubled_delimiters_in_four_forms() {
    assert_eq!(parse("****a****"), vec![Bold(vec![Text("a")])]);
    assert_eq!(parse("***foo***"), vec![Bold(vec![Italics(vec![Text("foo")])])]);
    assert_eq!(parse("**foo *bar***"), vec![
        Bold(vec![Text("foo "), Italics(vec![Text("bar")])]),
    ]);
    assert_eq!(parse("****"), vec![Bold(vec![])]);
    assert_eq!(parse("___foo___"), vec![Underline(vec![Italics(vec![Text("foo")])])]);
    assert_eq!(parse("__foo _bar___"), vec![
        Underline(vec![Text("foo "), Italics(vec![Text("bar")])]),
    ]);
}

#[test]
fn unmatched_delimiters_are_text() {
    assert_eq!(parse("**foo"), vec![Text("**foo")]);
    assert_eq!(parse("a * b"), vec![Text("a * b")]);
    assert_eq!(parse("``"), vec![Text("``")]);
    assert_eq!(parse("__"), vec![Text("__")]);
}

#[test]
fn code_is_not_scanned() {
    assert_eq!(parse("`**a**`"), vec![InlineCode("**a**")]);
    assert_eq!(parse("```<@1>\n> x```"), vec![MultilineCode("<@1>\n> x")]);
    assert_eq!(parse("``````"), vec![MultilineCode("")]);
}

#[test]
fn links() {
    assert_eq!(parse("https://example.com."), vec![
        Hyperlink("https://example.com", "https://example.com"),
        Text("."),
    ]);
    assert_eq!(parse("<ftp://a.b/c>"), vec![Hyperlink("ftp://a.b/c", "ftp://a.b/c")]);
    assert_eq!(parse("file:///tmp/x y"), vec![
        Hyperlink("file:///tmp/x", "file:///tmp/x"),
        Text(" y"),
    ]);
    assert_eq!(parse("mailto://a"), vec![Text("mailto://a")]);
    assert_eq!(parse("<http://a.b"), vec![
        Text("<"),
        Hyperlink("http://a.b", "http://a.b"),
    ]);
}

#[test]
fn labelled_links_need_their_mode() {
    assert_eq!(parse("[a](http://b.c)"), vec![
        Text("[a]("),
        Hyperlink("http://b.c", "http://b.c"),
        Text(")"),
    ]);
    assert_eq!(parse_with_md_hyperlinks("[a](http://b.c)"), vec![Hyperlink("a", "http://b.c")]);
    assert_eq!(parse_with_md_hyperlinks("[a](<http://b.c>)"), vec![Hyperlink("a", "http://b.c")]);
    assert_eq!(parse_with_md_hyperlinks("_link_: [example](https://example.com)"), vec![
        Italics(vec![Text("link")]),
        Text(": "),
        Hyperlink("example", "https://example.com"),
    ]);
    assert_eq!(parse_with_md_hyperlinks("[a](b)"), vec![Text("[a](b)")]);
}

#[test]
fn labelled_links_inside_containers() {
    assert_eq!(parse_with_md_hyperlinks("**[a](http://b.c)**"), vec![
        Bold(vec![Hyperlink("a", "http://b.c")]),
    ]);
}

#[test]
fn message_with_quote_mention_and_link() {
    assert_eq!(
        parse("> Can someone link the rust website?\n<@123456789123456789> https://www.rust-lang.org"),
        vec![
            Blockquote(vec![Text("Can someone link the rust website?")]),
            User("123456789123456789"),
            Text(" "),
            Hyperlink("https://www.rust-lang.org", "https://www.rust-lang.org"),
        ]
    );
}

#[test]
fn nested_formatting() {
    assert_eq!(parse("> _**example** formatted_ ||string||"), vec![
        Blockquote(vec![
            Italics(vec![Bold(vec![Text("example")]), Text(" formatted")]),
            Text(" "),
            Spoiler(vec![Text("string")]),
        ]),
    ]);
}

#[test]
fn long_message() {
    let message = "<@123> **bold** text <:e:9> ".repeat(300);
    let tree = parse(&message);
    assert_eq!(tree.len(), 300 * 6);
    assert_eq!(tree[0], User("123"));
    assert_eq!(tree[1], Text(" "));
    assert_eq!(tree[2], Bold(vec![Text("bold")]));
    assert_eq!(tree[3], Text(" text "));
    assert_eq!(tree[4], CustomEmoji("e", "9.png".to_owned()));
    assert_eq!(tree[1799], Text(" "));
}
