use md2html::markup::{
    convert, expression, generate_tokens, list_item, parse, parse_tokens, Expr, ListItem, Read,
    Token,
};
use md2html::post_item::{generate_post_item, generate_posts_list, parse_post, split_lines, Post};
use md2html::text::{chars_of, string_of};

fn text(s: &str) -> Token {
    Token::String(String::from(s))
}

fn no_templates() -> Vec<(String, String)> {
    Vec::new()
}

fn html(markdown: &str) -> Option<String> {
    let tokens = generate_tokens(markdown)?;
    let ast = parse_tokens(&tokens, &no_templates())?;
    convert(ast)
}

#[test]
fn a_text_is_cut_into_tokens() {
    assert_eq!(
        generate_tokens("# Title\nSome *bold* text").unwrap(),
        [
            Token::Heading(1),
            text("Title"),
            Token::NewLine,
            text("Some "),
            Token::Italic,
            text("bold"),
            Token::Italic,
            text("text"),
        ]
    );
}

#[test]
fn the_longer_symbol_goes_before_the_shorter() {
    assert_eq!(generate_tokens("**").unwrap(), [Token::Bold]);
    assert_eq!(generate_tokens("*").unwrap(), [Token::Italic]);
    assert_eq!(generate_tokens("```").unwrap(), [Token::CodeBlock]);
    assert_eq!(generate_tokens("``").unwrap(), [Token::BackTick, Token::BackTick]);
    assert_eq!(generate_tokens("~~").unwrap(), [Token::Strikethrough]);
    assert_eq!(generate_tokens("~").unwrap(), [text("~")]);
    assert_eq!(generate_tokens("+++").unwrap(), [Token::Plus]);
    assert_eq!(generate_tokens("{{").unwrap(), [Token::TemplateStart]);
    assert_eq!(generate_tokens("}}").unwrap(), [Token::TemplateEnd]);
    assert_eq!(generate_tokens("{%").unwrap(), [Token::ShortcodeStart]);
    assert_eq!(generate_tokens("%}").unwrap(), [Token::ShortcodeEnd]);
    assert_eq!(generate_tokens("%").unwrap(), [text("%")]);
}

#[test]
fn single_characters_are_tokens_of_their_own() {
    assert_eq!(
        generate_tokens(">[]()\n\r\t=").unwrap(),
        [
            Token::BlockQuote,
            Token::OpenBracket,
            Token::CloseBracket,
            Token::OpenParentheses,
            Token::CloseParentheses,
            Token::NewLine,
            Token::CarriageReturn,
            Token::Tab,
            Token::Equal,
        ]
    );
}

#[test]
fn a_heading_needs_the_start_of_a_line() {
    assert_eq!(generate_tokens("### x").unwrap(), [Token::Heading(3), text("x")]);
    assert_eq!(generate_tokens("a # x").unwrap(), [text("a # x")]);
    assert_eq!(
        generate_tokens("a\n###### x").unwrap(),
        [text("a"), Token::NewLine, Token::Heading(6), text("x")]
    );
    assert_eq!(generate_tokens("#").unwrap(), [Token::Heading(1)]);
    assert_eq!(generate_tokens("#x").unwrap(), [Token::Heading(1)]);
}

#[test]
fn a_heading_beyond_six_is_not_taken() {
    assert_eq!(generate_tokens("####### x"), None);
    assert_eq!(html("####### x"), None);
}

#[test]
fn a_comment_mark_leaves_the_run_of_text_open() {
    assert_eq!(
        generate_tokens("<!-- x -->").unwrap(),
        [Token::CommentStart, Token::CommentEnd, text("x ")]
    );
    assert_eq!(generate_tokens("a<!--b").unwrap(), [Token::CommentStart, text("ab")]);
}

#[test]
fn a_blank_outside_a_run_of_text_is_dropped() {
    assert_eq!(generate_tokens("  a  b ").unwrap(), [text("a  b ")]);
    assert_eq!(generate_tokens("* a").unwrap(), [Token::Italic, text("a")]);
}

#[test]
fn a_character_that_stands_for_nothing_puts_the_text_before_the_last_token() {
    assert_eq!(generate_tokens("*a+b").unwrap(), [text("a"), Token::Italic, text("b")]);
    assert_eq!(generate_tokens("*a{b}").unwrap(), [text("a"), text("b"), Token::Italic]);
    assert_eq!(generate_tokens("+{}").unwrap(), []);
}

#[test]
fn a_text_that_ends_before_any_token_is_not_taken() {
    assert_eq!(generate_tokens("a+"), None);
    assert_eq!(generate_tokens("a{b"), None);
    assert_eq!(generate_tokens("a}"), None);
}

#[test]
fn tokens_have_their_texts() {
    let tokens = generate_tokens("*a**b~~`c`>[]()\n\r\t{{}}=+++{%%}```").unwrap();
    let texts: String = tokens.iter().map(|t| t.to_string()).collect();
    assert_eq!(texts, "*a**b~~`c`>[]()\n\r\t{{}}=+++{%%}```");
    assert_eq!(Token::CommentStart.to_string(), "<!-- ");
    assert_eq!(Token::CommentEnd.to_string(), "-->");
    assert_eq!(Token::Tag.to_string(), "+++");
}

#[test]
fn an_entry_of_a_list_is_a_number_a_dot_and_a_blank() {
    assert_eq!(list_item("1. one"), ListItem::Entry(String::from("one")));
    assert_eq!(list_item("12. x. y"), ListItem::Entry(String::from("x. y")));
    assert_eq!(list_item("a. one"), ListItem::Entry(String::from("one")));
    assert_eq!(list_item("1. "), ListItem::Entry(String::new()));
    assert_eq!(list_item("one"), ListItem::Plain);
    assert_eq!(list_item("1"), ListItem::Plain);
    assert_eq!(list_item("123"), ListItem::Plain);
    assert_eq!(list_item(""), ListItem::Plain);
    assert_eq!(list_item(". x"), ListItem::Plain);
    assert_eq!(list_item("1x. y"), ListItem::Plain);
    assert_eq!(list_item("1.5"), ListItem::Broken);
    assert_eq!(list_item("1."), ListItem::Broken);
    assert_eq!(list_item("1٣. x"), ListItem::Entry(String::from("x")));
}

#[test]
fn expressions_are_written_as_html() {
    assert_eq!(
        html("# Title\nSome *bold* text").unwrap(),
        "<h1>Title</h1>\n<p>Some </p>\n<i>bold</i>\n<p>text</p>\n"
    );
    assert_eq!(html("**b**").unwrap(), "<b>b</b>\n");
    assert_eq!(html("~~s~~").unwrap(), "<s>s</s>\n");
    assert_eq!(html("`code`").unwrap(), "<code>code</code>\n");
    assert_eq!(html("---").unwrap(), "<hr>\n");
    assert_eq!(html("--").unwrap(), "");
    assert_eq!(html("-a").unwrap(), "");
    assert_eq!(html("").unwrap(), "");
}

#[test]
fn a_link_has_a_title_and_a_target() {
    assert_eq!(html("[title](http://x)").unwrap(), "<a href=\"http://x\">title</a>\n");
    assert_eq!(html("[]()").unwrap(), "<a href=\"\"></a>\n");
    assert_eq!(html("![alt](pic.png)").unwrap(), "<a href=\"pic.png\">alt</a>\n");
    assert_eq!(html("!").unwrap(), "<p>!</p>\n");
    assert_eq!(html("[title]").unwrap(), "<p>title</p>\n");
}

#[test]
fn a_link_without_title_takes_three_tokens() {
    assert_eq!(html("[](x)").unwrap(), "<a href=\"x\"></a>\n");
    assert_eq!(html("[](x)*b*").unwrap(), "<a href=\"x\"></a>\n<i>b</i>\n");
}

#[test]
fn a_link_with_title_takes_the_two_tokens_after_it_too() {
    assert_eq!(html("[t](x)*b*").unwrap(), "<a href=\"x\">t</a>\n");
    assert_eq!(html("[t](x)*b* c").unwrap(), "<a href=\"x\">t</a>\n<p>c</p>\n");
}

#[test]
fn a_code_block_mark_leaves_the_run_of_text_open() {
    assert_eq!(
        generate_tokens("a```b*").unwrap(),
        [Token::CodeBlock, Token::String(String::from("ab")), Token::Italic]
    );
}

#[test]
fn a_block_quote_has_a_level() {
    assert_eq!(html(">a").unwrap(), "<blockquote>a</blockquote>\n");
    assert_eq!(
        html(">>> a").unwrap(),
        "<blockquote><blockquote><blockquote>a</blockquote></blockquote></blockquote>\n"
    );
    assert_eq!(html(">"), None);
    assert_eq!(html(">*a*"), None);
}

#[test]
fn a_heading_needs_its_text() {
    assert_eq!(html("# "), None);
    assert_eq!(html("# *a*"), None);
}

#[test]
fn an_ordered_list_takes_the_entries_that_follow() {
    assert_eq!(
        html("1. one\r\n2. two\r\n").unwrap(),
        "<ol>\n\t<li>one</li>\n\t<li>two</li>\n</ol>\n"
    );
    assert_eq!(html("1. one").unwrap(), "<ol>\n\t<li>one</li>\n</ol>\n");
    assert_eq!(
        html("1. one\r\nplain").unwrap(),
        "<ol>\n\t<li>one</li>\n</ol>\n<p>plain</p>\n"
    );
    assert_eq!(html("1.5"), None);
}

#[test]
fn a_code_block_keeps_its_runs_of_text() {
    assert_eq!(html("```\nlet x\n*y*\n```").unwrap(), "<code>\nlet x\ny\n</code>\n");
    assert_eq!(html("```\nnever closed").unwrap(), "");
}

#[test]
fn a_template_gives_way_to_its_file() {
    let templates = vec![
        (String::from("templates/header.html"), String::from("<header/>")),
        (String::from("templates/header.html"), String::from("second")),
    ];
    let tokens = generate_tokens("{{ header }}{{footer}}").unwrap();
    let ast = parse(&tokens, &templates).unwrap();
    assert_eq!(
        ast,
        [
            Expr::Template(String::from("<header/>")),
            Expr::Template(String::from("<!-- TEMPLATE FILE 'footer.html' DOES NOT EXIST! -->")),
        ]
    );
    assert_eq!(
        convert(ast).unwrap(),
        "<header/>\n<!-- TEMPLATE FILE 'footer.html' DOES NOT EXIST! -->\n"
    );
}

#[test]
fn reading_goes_on_after_the_expression() {
    let tokens = generate_tokens("*a* b").unwrap();
    match expression(&tokens, 0, &no_templates()) {
        Read::Made(expr, next) => {
            assert_eq!(expr, Expr::Italic(String::from("a")));
            assert_eq!(next, 3);
        }
        other => panic!("{:?}", other),
    }
    match expression(&tokens, 1, &no_templates()) {
        Read::Made(expr, next) => {
            assert_eq!(expr, Expr::Text(String::from("a")));
            assert_eq!(next, 2);
        }
        other => panic!("{:?}", other),
    }
    assert!(matches!(expression(&tokens, 2, &no_templates()), Read::Nothing(3)));
}

#[test]
fn a_heading_of_no_level_has_no_html() {
    assert_eq!(convert(vec![Expr::Heading(0, String::from("x"))]), None);
    assert_eq!(convert(vec![Expr::Heading(7, String::from("x"))]), None);
    assert_eq!(convert(vec![Expr::Heading(6, String::from("x"))]).unwrap(), "<h6>x</h6>\n");
    assert_eq!(convert(vec![Expr::Variable(String::from("x"))]).unwrap(), "\n");
    assert_eq!(convert(vec![Expr::BlockQuote(0, String::from("x"))]).unwrap(), "x\n");
}

#[test]
fn lines_end_at_their_line_feeds() {
    let lines = |text: &str| -> Vec<String> {
        split_lines(&chars_of(text)).iter().map(string_of).collect()
    };
    for text in ["", "a", "a\n", "a\nb", "a\r\nb\r\n", "\n", "\n\n", "a\rb\n", "a\r", "\r\n"] {
        let expected: Vec<String> =
            std::io::BufRead::lines(text.as_bytes()).map(|l| l.unwrap()).collect();
        assert_eq!(lines(text), expected);
    }
}

fn post() -> Post {
    parse_post(
        "posts/hello.md",
        "<!-- +++\ntitle = Hello\nuser = me\nother = x\n+++ -->\nline one\nline  two\n",
    )
    .unwrap()
}

#[test]
fn the_block_of_a_post_gives_title_and_user() {
    let post = post();
    assert_eq!(post.path, "posts/hello.md");
    assert_eq!(post.title, "Hello");
    assert_eq!(post.user, "me");
    assert_eq!(post.words, 5);
    assert_eq!(post.duration, "&lt;1 minute read");
    assert_eq!(post.summary, "line one\nline  two\n");
}

#[test]
fn the_summary_is_the_first_seven_lines() {
    let post = parse_post("p.md", "<!-- +++\n+++ -->\n1\n2\n3\n4\n5\n6\n7\n8\n9").unwrap();
    assert_eq!(post.summary, "1\n2\n3\n4\n5\n6\n7\n");
    assert_eq!(post.words, 9);
}

#[test]
fn a_long_post_takes_minutes_to_read() {
    let body = "word ".repeat(499);
    let post = parse_post("p.md", &format!("<!-- +++\n+++ -->\n{}", body)).unwrap();
    assert_eq!(post.words, 500);
    assert_eq!(post.duration, "2 minute read");
}

#[test]
fn a_file_that_opens_otherwise_is_no_post() {
    assert!(parse_post("p.md", "").is_none());
    assert!(parse_post("p.md", "# Title\n").is_none());
    assert!(parse_post("p.md", " <!-- +++\n+++ -->\n").is_none());
    assert!(parse_post("p.md", "<!-- +++\nno equal sign\n+++ -->\n").is_none());
    assert!(parse_post("p.md", "<!-- +++\ntitle = never closed").is_some());
}

#[test]
fn a_post_of_which_nothing_is_known_is_empty() {
    let post = Post::default();
    assert_eq!(post.path, "");
    assert_eq!(post.words, 0);
}

#[test]
fn an_entry_is_the_skeleton_with_its_variables_filled() {
    let post = post();
    assert_eq!(
        generate_post_item(&post, "<li>{{ title }} by {{user}}</li>").unwrap(),
        "<li>Helloby me</li>\n"
    );
    assert_eq!(
        generate_post_item(&post, "{{link}}|{{words}}|{{duration}}|{{date}}|{{ summary }}").unwrap(),
        "build/hello.html|5 words|&lt;1 minute read||line one\nline  two\n\n"
    );
    assert_eq!(generate_post_item(&post, "{{ title").unwrap(), "title\n");
    assert_eq!(generate_post_item(&post, "").unwrap(), "\n");
}

#[test]
fn an_entry_with_an_unknown_variable_is_not_made() {
    let post = post();
    assert_eq!(generate_post_item(&post, "{{ nothing }}"), None);
    assert_eq!(generate_post_item(&post, "{% for %}"), None);
    assert_eq!(generate_post_item(&post, "# heading"), None);
    assert_eq!(generate_post_item(&post, "a+"), None);
}

#[test]
fn the_entries_of_a_listing_follow_each_other() {
    let posts = vec![post(), parse_post("posts/b.md", "<!-- +++\ntitle = B\n+++ -->\n").unwrap()];
    assert_eq!(generate_posts_list(&posts, "{{title}};").unwrap(), "Hello;\nB;\n");
    assert_eq!(generate_posts_list(&Vec::new(), "{{title}}").unwrap(), "");
    assert_eq!(generate_posts_list(&posts, "{{x}}"), None);
}
