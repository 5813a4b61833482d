use md2html::date::Date;
use md2html::markdown::to_html;
use md2html::metadata::{Metadata, MetadataError};
use md2html::post::{build, Post};
use md2html::post_list;
use md2html::posts::{lex_before, Posts};
use md2html::syntax_highlighting::Highlighter;
use md2html::text::chars_of;

fn metadata(file: &str) -> Metadata {
    Metadata::new(file, "markdown/example.md").unwrap()
}

#[test]
fn the_block_gives_title_summary_and_date() {
    let m = metadata("~~~\ntitle: Hello\nsummary:  A first post \ndate: 3/5/2021\n~~~\nBody text");
    assert_eq!(m.title, "Hello");
    assert_eq!(m.summary, "A first post");
    assert_eq!(m.date, Some(Date { day: 3, month: 5, year: 2021 }));
    assert_eq!(m.link_path, "example.html");
    assert_eq!(m.real_path, "markdown/example.md");
    assert_eq!(m.end_position, 59);
    assert_eq!(m.word_count, 3);
}

#[test]
fn the_body_starts_after_the_closing_line() {
    let file = "~~~\ntitle: Hello\n~~~\nBody text";
    let m = metadata(file);
    assert_eq!(m.end_position, 20);
    assert_eq!(&file[m.end_position..], "\nBody text");
}

#[test]
fn unknown_keys_and_lines_without_colon_are_passed_over() {
    let m = metadata("~~~\nauthor: me\njust a line\ntitle: T\n~~~\n");
    assert_eq!(m.title, "T");
    assert_eq!(m.summary, "");
    assert_eq!(m.date, None);
}

#[test]
fn a_key_is_taken_as_it_stands_and_a_value_is_trimmed() {
    let m = metadata("~~~\n title: no\ntitle:   yes: really \r\n~~~\r\nbody");
    assert_eq!(m.title, "yes: really");
}

#[test]
fn a_later_line_overrides_an_earlier_one() {
    let m = metadata("~~~\ntitle: one\ntitle: two\ndate: 1/1/2000\ndate: nonsense\n~~~\n");
    assert_eq!(m.title, "two");
    assert_eq!(m.date, Some(Date { day: 1, month: 1, year: 2000 }));
}

#[test]
fn a_file_without_block_is_all_body() {
    let m = metadata("Just some text\nin two lines");
    assert_eq!(m.title, "");
    assert_eq!(m.end_position, 0);
    assert_eq!(m.word_count, 6);
}

#[test]
fn an_empty_file_counts_one_word() {
    let m = metadata("");
    assert_eq!(m.word_count, 1);
    assert_eq!(m.word_count(), "1 word");
}

#[test]
fn a_block_that_is_not_closed_is_an_error() {
    for file in ["~~~\ntitle: Hello\nBody text", "~~~", "~~~\n", "~~~\ntitle: a ~~~ b\n"] {
        assert_eq!(
            Metadata::new(file, "markdown/example.md").unwrap_err(),
            MetadataError::Unterminated
        );
    }
}

#[test]
fn the_word_count_is_printed_with_its_unit() {
    let mut m = metadata("");
    m.word_count = 0;
    assert_eq!(m.word_count(), "0 words");
    m.word_count = 1;
    assert_eq!(m.word_count(), "1 word");
    m.word_count = 2;
    assert_eq!(m.word_count(), "2 words");
    m.word_count = 1234;
    assert_eq!(m.word_count(), "1234 words");
}

#[test]
fn the_reading_time_is_counted_at_250_words_a_minute() {
    let mut m = metadata("");
    m.word_count = 249;
    assert_eq!(m.read_time(), "&lt;1 minute read");
    m.word_count = 250;
    assert_eq!(m.read_time(), "1 minute read");
    m.word_count = 499;
    assert_eq!(m.read_time(), "1 minute read");
    m.word_count = 500;
    assert_eq!(m.read_time(), "2 minute read");
    m.word_count = 2600;
    assert_eq!(m.read_time(), "10 minute read");
}

#[test]
fn the_reading_time_agrees_with_the_floating_point_formula() {
    let mut m = metadata("");
    for count in [0_usize, 1, 249, 250, 251, 499, 500, 749, 750, 12_345, 1_000_000] {
        m.word_count = count;
        let minutes = count as f32 / 250.0;
        let expected = if minutes < 1.0 {
            String::from("&lt;1 minute read")
        } else {
            format!("{} minute read", minutes as usize)
        };
        assert_eq!(m.read_time(), expected);
    }
}

#[test]
fn the_date_comes_in_three_parts() {
    let m = metadata("~~~\ndate: 22/2/2022\n~~~\n");
    assert_eq!(m.date(), Some((String::from("22nd"), String::from("February"), 2022)));
    assert_eq!(metadata("no date").date(), None);
}

#[test]
fn markdown_becomes_html() {
    assert_eq!(to_html("Body text"), "<p>Body text</p>\n");
    assert_eq!(to_html("# Title\n\n*a* **b** ~~c~~"), "<h1>Title</h1>\n<p><em>a</em> <strong>b</strong> <del>c</del></p>\n");
    assert_eq!(to_html(""), "");
}

#[test]
fn a_post_is_poured_into_the_page_skeleton() {
    let post = Post::new(
        "<h1><!-- title --></h1><i><!-- date --></i><!-- content -->",
        "markdown/hello.md",
        "~~~\ntitle: Hello\ndate: 1/4/2020\n~~~\n\nBody *text*",
    )
    .unwrap();
    assert_eq!(post.html, "<h1>Hello</h1><i>1st of April, 2020</i><p>Body <em>text</em></p>\n");
    assert_eq!(post.build_path, "build/hello.html");
    assert_eq!(post.metadata.title, "Hello");
    assert_eq!(post.metadata.link_path, "hello.html");
}

#[test]
fn a_post_without_date_leaves_the_date_empty() {
    let post = Post::new("<!-- title -->/<!-- date -->/<!-- content -->", "a.md", "text").unwrap();
    assert_eq!(post.html, "//<p>text</p>\n");
}

#[test]
fn every_placeholder_is_filled_wherever_it_stands() {
    let post = Post::new(
        "<!-- title --><!-- title -->|<!-- content -->",
        "a.md",
        "~~~\ntitle: T\n~~~\nx",
    )
    .unwrap();
    assert_eq!(post.html, "TT|<p>x</p>\n");
}

#[test]
fn a_post_with_an_open_block_is_not_made() {
    assert_eq!(
        Post::new("<!-- content -->", "a.md", "~~~\ntitle: T\n").unwrap_err(),
        MetadataError::Unterminated
    );
    assert_eq!(
        build("<!-- content -->", "a.md", "~~~\ntitle: T\n").unwrap_err(),
        MetadataError::Unterminated
    );
}

#[test]
fn build_gives_the_file_and_the_page() {
    let (path, html) = build("<!-- title -->/<!-- content -->", "markdown/hello.md", "~~~\ntitle: Hello\n~~~\nBody text").unwrap();
    assert_eq!(path, "build/hello.html");
    assert_eq!(html, "Hello/<p>Body text</p>\n");
}

const ITEM: &str = "<li><a href=\"~link~\"><!-- title --></a> <!-- date --> (<!-- read_time -->, <!-- word_count -->) <!-- summary --></li>";

#[test]
fn the_listing_has_one_entry_for_each_post() {
    let first = Metadata::new("~~~\ntitle: One\nsummary: S1\ndate: 2/1/2021\n~~~\na b", "markdown/one.md").unwrap();
    let second = Metadata::new("~~~\ntitle: Two\n~~~\n", "markdown/two.md").unwrap();
    let page = post_list::build("<ul><!-- posts --></ul><!-- posts -->", ITEM, &[first, second]).unwrap();
    assert_eq!(
        page,
        "<ul><li><a href=\"one.html\">One</a> 2nd January 2021 (&lt;1 minute read, 3 words) S1</li>\
<li><a href=\"two.html\">Two</a>  (&lt;1 minute read, 2 words) </li></ul>"
    );
}

#[test]
fn a_listing_skeleton_without_marker_makes_no_page() {
    assert_eq!(post_list::build("<ul></ul>", ITEM, &[]), None);
    assert!(!post_list::has_marker("<ul></ul>"));
    assert!(post_list::has_marker("<ul><!-- posts --></ul>"));
    assert_eq!(post_list::build("<ul><!-- posts --></ul>", ITEM, &[]).unwrap(), "<ul></ul>");
}

fn post(path: &str, file: &str) -> Post {
    Post::new("<!-- title -->", path, file).unwrap()
}

fn store() -> Posts {
    Posts::new(
        String::from("[<!-- posts -->]"),
        String::from("<!-- title -->;"),
        String::from("<!-- title -->"),
    )
    .unwrap()
}

#[test]
fn the_store_needs_a_listing_skeleton_with_marker() {
    assert!(Posts::new(String::from("no marker"), String::new(), String::new()).is_none());
    let posts = store();
    assert_eq!(posts.len(), 0);
    assert_eq!(posts.build(), "[]");
    assert_eq!(posts.post_template(), "<!-- title -->");
    assert_eq!(posts.list_template(), "[<!-- posts -->]");
    assert_eq!(posts.list_item_template(), "<!-- title -->;");
}

#[test]
fn the_store_lists_the_latest_first_and_undated_last() {
    let mut posts = store();
    posts.insert(String::from("m/b.md"), post("m/b.md", "~~~\ntitle: old\ndate: 1/1/2020\n~~~\n"));
    posts.insert(String::from("m/z.md"), post("m/z.md", "~~~\ntitle: none-z\n~~~\n"));
    posts.insert(String::from("m/a.md"), post("m/a.md", "~~~\ntitle: new\ndate: 1/2/2020\n~~~\n"));
    posts.insert(String::from("m/c.md"), post("m/c.md", "~~~\ntitle: none-c\n~~~\n"));
    posts.insert(String::from("m/d.md"), post("m/d.md", "~~~\ntitle: old-d\ndate: 1/1/2020\n~~~\n"));
    assert_eq!(posts.build(), "[new;old;old-d;none-c;none-z;]");
    let titles: Vec<&str> = posts.all().iter().map(|p| p.metadata.title.as_str()).collect();
    assert_eq!(titles, ["new", "old", "old-d", "none-c", "none-z"]);
}

#[test]
fn a_page_takes_the_place_of_the_page_of_the_same_post() {
    let mut posts = store();
    posts.insert(String::from("m/a.md"), post("m/a.md", "~~~\ntitle: first\n~~~\n"));
    posts.insert(String::from("m/a.md"), post("m/a.md", "~~~\ntitle: second\n~~~\n"));
    assert_eq!(posts.len(), 1);
    assert_eq!(posts.get("m/a.md").unwrap().metadata.title, "second");
    assert!(posts.get("m/b.md").is_none());
}

#[test]
fn a_removed_page_is_gone() {
    let mut posts = store();
    posts.insert(String::from("m/a.md"), post("m/a.md", "~~~\ntitle: a\n~~~\n"));
    posts.insert(String::from("m/b.md"), post("m/b.md", "~~~\ntitle: b\n~~~\n"));
    assert!(posts.remove("m/a.md"));
    assert!(!posts.remove("m/a.md"));
    assert_eq!(posts.len(), 1);
    assert_eq!(posts.build(), "[b;]");
}

#[test]
fn the_skeletons_are_taken_together_or_not_at_all() {
    let mut posts = store();
    assert!(!posts.update_templates(String::from("bad"), String::from("i"), String::from("p")));
    assert_eq!(posts.list_item_template(), "<!-- title -->;");
    assert!(posts.update_templates(String::from("(<!-- posts -->)"), String::from("i"), String::from("p")));
    assert_eq!(posts.list_template(), "(<!-- posts -->)");
    assert_eq!(posts.list_item_template(), "i");
    assert_eq!(posts.post_template(), "p");
    assert!(!posts.set_list_template(String::from("bad")));
    assert_eq!(posts.list_template(), "(<!-- posts -->)");
    posts.set_post_template(String::from("q"));
    posts.set_list_item_template(String::from("j"));
    assert_eq!(posts.post_template(), "q");
    assert_eq!(posts.list_item_template(), "j");
}

#[test]
fn paths_are_ordered_as_in_the_dictionary() {
    let before = |a: &str, b: &str| lex_before(&chars_of(a), &chars_of(b));
    assert!(before("a", "b"));
    assert!(before("a", "ab"));
    assert!(before("", "a"));
    assert!(!before("a", "a"));
    assert!(!before("b", "a"));
    assert!(!before("ab", "a"));
    assert_eq!(before("m/Z.md", "m/a.md"), "m/Z.md" < "m/a.md");
}

#[test]
fn code_is_highlighted_as_html() {
    let mut highlighter = Highlighter::new();
    highlighter.language = String::from("rs");
    highlighter.push_str("let x");
    highlighter.push_str(" = 5;\n");
    assert_eq!(highlighter.buffer, "let x = 5;\n");
    let html = highlighter.highlight().unwrap();
    assert!(html.contains("<span style=\"color:#"));
    assert!(html.contains("let"));
    assert_ne!(html, "let x = 5;\n");
    assert_eq!(highlighter.buffer, "");
    assert_eq!(highlighter.language, "rs");
    assert_eq!(highlighter.highlight().unwrap(), "");
}
