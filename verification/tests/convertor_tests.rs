use discord_markdown::convertor::{is_isolated, to_html, to_html_with_callbacks};
use discord_markdown::markup::{
    channel_html, emoji_html, inline_code_html, is_blank, multiline_code_html, role_html,
    user_html,
};
use discord_markdown::parser::Expression::{
    Bold, Channel, CustomEmoji, Hyperlink, InlineCode, MultilineCode, Newline, Role, Text,
    Underline, User,
};
use discord_markdown::parser::{parse, parse_with_md_hyperlinks};
use discord_markdown::pattern::re_capture;

#[test]
fn convertor_basic() {
    assert_eq!(to_html(
        parse("foo > _foo bar_ *foo bar* **foo bar** __foo bar__\n> `foo bar` ``foo bar`` ||foo bar||\n> \n> test"),
    ), "foo &gt; <em>foo bar</em> <em>foo bar</em> <strong>foo bar</strong> <u>foo bar</u><br><blockquote><span class=\"inline_code\">foo bar</span> <span class=\"inline_code\">foo bar</span> <span class=\"spoiler\">foo bar</span></blockquote><blockquote><br></blockquote><blockquote>test</blockquote>");
}

#[test]
fn convertor_nested() {
    assert_eq!(to_html(
        parse("foo _> foo_ _bar\n> foo_ ||***__~~foo\nbar~~__***||"),
    ), "foo <em>&gt; foo</em> <em>bar<br><blockquote>foo</blockquote></em> <span class=\"spoiler\"><strong><em><u><span class=\"strikethrough\">foo<br>bar</span></u></em></strong></span>");
}

#[test]
fn convertor_regex() {
    assert_eq!(to_html_with_callbacks(
        parse("<#1234567890><@&1234567890><@1234567890><@!1234567890><:foo:1234567890><a:foo:1234567890>"),
        |filename| (filename.to_string(), None),
        |id| (id.to_string(), None),
        |x| (x.to_string(), Some(String::from("#ff00ff"))),
        |id| (id.to_string(), None),
    ), "<span class=\"channel\" data-id=\"1234567890\">#1234567890</span><div class=\"role\" style=\"color: #ff00ff\">@1234567890<span style=\"background-color: #ff00ff\"></span></div><span class=\"user\">@1234567890</span><span class=\"user\">@1234567890</span><img src=\"1234567890.png\" alt=\"foo\" class=\"emoji\" title=\"foo\"></img><img src=\"1234567890.gif\" alt=\"foo\" class=\"emoji\" title=\"foo\"></img>");
}

#[test]
fn convertor_hyperlinks() {
    assert_eq!(to_html(
        parse("<https://www.example.com/> https://example.com [foo](https://example.com/) [foo](<http://example.com>)"),
    ), "<a href=\"https://www.example.com/\" target=\"_blank\">https://www.example.com/</a> <a href=\"https://example.com\" target=\"_blank\">https://example.com</a> [foo](<a href=\"https://example.com/\" target=\"_blank\">https://example.com/</a>) [foo](<a href=\"http://example.com\" target=\"_blank\">http://example.com</a>)");
    assert_eq!(to_html(
        parse_with_md_hyperlinks("<https://www.example.com/> https://example.com [foo](https://example.com/) [foo](<http://example.com>)"),
    ), "<a href=\"https://www.example.com/\" target=\"_blank\">https://www.example.com/</a> <a href=\"https://example.com\" target=\"_blank\">https://example.com</a> <a href=\"https://example.com/\" target=\"_blank\">foo</a> <a href=\"http://example.com\" target=\"_blank\">foo</a>");
}

#[test]
fn text_is_escaped() {
    assert_eq!(to_html(vec![Text("<script>")]), "&lt;script&gt;");
    assert_eq!(to_html(vec![Text("a & \"b\" 'c'")]), "a &amp; &quot;b&quot; &#x27;c&#x27;");
    assert_eq!(to_html(vec![Text("1 < 2 > 0")]), "1 &lt; 2 &gt; 0");
    assert_eq!(to_html(vec![Text("plain \u{e9}")]), "plain \u{e9}");
    assert_eq!(to_html(vec![Bold(vec![Text("&amp;")])]), "<strong>&amp;amp;</strong>");
}

#[test]
fn quoted_formatting_round_trip() {
    assert_eq!(
        to_html(parse("> _**example** formatted_ ||string||")),
        "<blockquote><em><strong>example</strong> formatted</em> <span class=\"spoiler\">string</span></blockquote>"
    );
}

#[test]
fn nested_tree_is_rendered_in_order() {
    assert_eq!(
        to_html(vec![
            Text("lorem ipsum"),
            Bold(vec![Text("dolor sit"), Underline(vec![Text("amet")])]),
        ]),
        "lorem ipsum<strong>dolor sit<u>amet</u></strong>"
    );
    assert_eq!(to_html(vec![]), "");
    assert_eq!(to_html(vec![Newline, Newline]), "<br><br>");
}

#[test]
fn resolvers_name_the_entities() {
    let html = to_html_with_callbacks(
        vec![
            CustomEmoji("foo", String::from("777888999777888999.png")),
            User("111222333111222333"),
            Role("444555666444555666"),
            Channel("333666999333666999"),
        ],
        |name| (format!("/emojis/{}", name), None),
        |_| ("Jane Doe".to_owned(), None),
        |_| ("green".to_owned(), Some("#00ff00".to_owned())),
        |_| ("general".to_owned(), None),
    );
    assert_eq!(html, "<img src=\"/emojis/777888999777888999.png\" alt=\"foo\" class=\"emoji\" title=\"foo\"></img><span class=\"user\">@Jane Doe</span><div class=\"role\" style=\"color: #00ff00\">@green<span style=\"background-color: #00ff00\"></span></div><span class=\"channel\" data-id=\"333666999333666999\">#general</span>");
}

#[test]
fn role_without_colour_is_grey() {
    assert_eq!(
        to_html(parse("<@&123456789123456789>")),
        "<div class=\"role\" style=\"color: #afafaf\">@123456789123456789<span style=\"background-color: #afafaf\"></span></div>"
    );
    assert_eq!(
        role_html("member", Some("#ff0000".to_owned())),
        "<div class=\"role\" style=\"color: #ff0000\">@member<span style=\"background-color: #ff0000\"></span></div>"
    );
    assert_eq!(
        role_html("member", None),
        "<div class=\"role\" style=\"color: #afafaf\">@member<span style=\"background-color: #afafaf\"></span></div>"
    );
}

#[test]
fn entity_markup() {
    assert_eq!(user_html("Jane"), "<span class=\"user\">@Jane</span>");
    assert_eq!(
        channel_html("42", "general"),
        "<span class=\"channel\" data-id=\"42\">#general</span>"
    );
    assert_eq!(
        emoji_html("foo", "/e/9.png", false),
        "<img src=\"/e/9.png\" alt=\"foo\" class=\"emoji\" title=\"foo\"></img>"
    );
    assert_eq!(
        emoji_html("foo", "/e/9.png", true),
        "<img src=\"/e/9.png\" alt=\"foo\" class=\"emoji wumboji\" title=\"foo\"></img>"
    );
}

#[test]
fn lone_emoji_is_enlarged() {
    assert_eq!(
        to_html(vec![CustomEmoji("foo", "9.png".to_owned())]),
        "<img src=\"9.png\" alt=\"foo\" class=\"emoji wumboji\" title=\"foo\"></img>"
    );
    assert_eq!(
        to_html(vec![Text(" \n\t"), CustomEmoji("foo", "9.png".to_owned()), Text(" ")]),
        " \n\t<img src=\"9.png\" alt=\"foo\" class=\"emoji wumboji\" title=\"foo\"></img> "
    );
    assert_eq!(
        to_html(parse("<:a:1> <a:b:2>")),
        "<img src=\"1.png\" alt=\"a\" class=\"emoji wumboji\" title=\"a\"></img> <img src=\"2.gif\" alt=\"b\" class=\"emoji wumboji\" title=\"b\"></img>"
    );
}

#[test]
fn emoji_beside_text_is_not_enlarged() {
    assert_eq!(
        to_html(vec![Text("hi "), CustomEmoji("foo", "9.png".to_owned())]),
        "hi <img src=\"9.png\" alt=\"foo\" class=\"emoji\" title=\"foo\"></img>"
    );
    assert_eq!(
        to_html(vec![CustomEmoji("foo", "9.png".to_owned()), Newline]),
        "<img src=\"9.png\" alt=\"foo\" class=\"emoji\" title=\"foo\"></img><br>"
    );
}

#[test]
fn emoji_inside_a_container_is_not_enlarged() {
    assert_eq!(
        to_html(vec![Bold(vec![CustomEmoji("foo", "9.png".to_owned())])]),
        "<strong><img src=\"9.png\" alt=\"foo\" class=\"emoji\" title=\"foo\"></img></strong>"
    );
}

#[test]
fn isolation_of_a_message() {
    assert!(is_isolated(&vec![]));
    assert!(is_isolated(&vec![CustomEmoji("a", "1.png".to_owned()), Text("  ")]));
    assert!(is_isolated(&vec![Text("\u{a0}\u{3000}")]));
    assert!(!is_isolated(&vec![CustomEmoji("a", "1.png".to_owned()), Text(" x ")]));
    assert!(!is_isolated(&vec![User("1")]));
}

#[test]
fn blank_text() {
    assert!(is_blank(""));
    assert!(is_blank(" \t\r\n"));
    assert!(!is_blank("x y"));
    assert!(!is_blank(" y"));
}

#[test]
fn code_markup() {
    assert_eq!(
        multiline_code_html("  a\nb  \n"),
        "<pre class=\"multiline_code\">a<br>b</pre>"
    );
    assert_eq!(
        to_html(vec![MultilineCode("\nfn main() {}\n")]),
        "<pre class=\"multiline_code\">fn main() {}</pre>"
    );
    assert_eq!(
        inline_code_html(" a\nb "),
        "<span class=\"inline_code\"> a<br>b </span>"
    );
    assert_eq!(
        to_html(vec![InlineCode("<b>")]),
        "<span class=\"inline_code\"><b></span>"
    );
}

#[test]
fn link_label_is_not_escaped() {
    assert_eq!(
        to_html(vec![Hyperlink("a<b", "http://x.y/?a=1&b=2")]),
        "<a href=\"http://x.y/?a=1&b=2\" target=\"_blank\">a<b</a>"
    );
}

#[test]
fn pattern_captures_are_cut_out() {
    assert_eq!(
        re_capture("^<@!?(\\d+)(>)", "<@!123> rest"),
        Some((vec!["<@!123>", "123", ">"], 7))
    );
    assert_eq!(re_capture("^<@!?(\\d+)(>)", "x<@!123>"), None);
    assert_eq!(re_capture("^(a)|(b)", "b"), Some((vec!["b", "b"], 1)));
    assert_eq!(re_capture("(", "("), None);
    assert_eq!(re_capture("^x*", "abc"), None);
}
