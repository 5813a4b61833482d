use md2html::date::{list_date, parse_date, post_date, Date};
use md2html::path::{build_path, classify, link_path, template_kind, Role, TemplateKind};
use md2html::text::{
    chars_of, find_from, is_whitespace, parse_number, push_decimal, replace, replace_from,
    starts_with_at, string_of, trim, trim_start,
};

fn replaced(text: &str, pat: &str, with: &str) -> String {
    string_of(&replace(&chars_of(text), &chars_of(pat), &chars_of(with)))
}

fn decimal(n: u64) -> String {
    let mut out = Vec::new();
    push_decimal(&mut out, n);
    string_of(&out)
}

fn number(text: &str) -> Option<u32> {
    parse_number(&chars_of(text))
}

fn date(text: &str) -> Option<Date> {
    parse_date(&chars_of(text))
}

#[test]
fn chars_and_strings_go_both_ways() {
    assert_eq!(chars_of("añb"), vec!['a', 'ñ', 'b']);
    assert_eq!(string_of(&vec!['x', 'é', 'z']), "xéz");
    assert_eq!(string_of(&chars_of("")), "");
}

#[test]
fn find_gives_the_first_occurrence_from_a_position() {
    let text = chars_of("abcabc");
    assert_eq!(find_from(&text, &chars_of("bc"), 0), Some(1));
    assert_eq!(find_from(&text, &chars_of("bc"), 2), Some(4));
    assert_eq!(find_from(&text, &chars_of("bc"), 5), None);
    assert_eq!(find_from(&text, &chars_of("x"), 0), None);
    assert_eq!(find_from(&text, &chars_of("abcabcd"), 0), None);
    assert!(starts_with_at(&text, 3, &chars_of("abc")));
    assert!(!starts_with_at(&text, 4, &chars_of("abc")));
}

#[test]
fn replace_agrees_with_the_standard_library() {
    for (text, pat, with) in [
        ("a<!-- t -->b<!-- t -->", "<!-- t -->", "X"),
        ("aaaa", "aa", "b"),
        ("aaa", "aa", "b"),
        ("abc", "x", "y"),
        ("", "x", "y"),
        ("xyz", "xyz", ""),
        ("ñandú", "ú", "u"),
    ] {
        assert_eq!(replaced(text, pat, with), text.replace(pat, with));
    }
}

#[test]
fn replace_leaves_the_text_alone_for_an_empty_pattern() {
    assert_eq!(replaced("abc", "", "x"), "abc");
}

#[test]
fn replace_from_leaves_out_what_stands_before() {
    let out = replace_from(&chars_of("a-b-c"), &chars_of("-"), &chars_of("+"), 2);
    assert_eq!(string_of(&out), "b+c");
}

#[test]
fn white_space_is_what_the_standard_library_calls_so() {
    for code in 0..0x3100_u32 {
        if let Some(c) = char::from_u32(code) {
            assert_eq!(is_whitespace(c), c.is_whitespace());
        }
    }
}

#[test]
fn trim_takes_the_white_space_off_the_ends() {
    assert_eq!(string_of(&trim(&chars_of("  a b \r\n"))), "a b");
    assert_eq!(string_of(&trim(&chars_of(" \t "))), "");
    assert_eq!(string_of(&trim(&chars_of(""))), "");
    assert_eq!(string_of(&trim_start(&chars_of("\n\n a "))), "a ");
}

#[test]
fn decimal_writes_numbers_without_leading_zeros() {
    assert_eq!(decimal(0), "0");
    assert_eq!(decimal(7), "7");
    assert_eq!(decimal(10), "10");
    assert_eq!(decimal(2021), "2021");
    assert_eq!(decimal(u64::MAX), "18446744073709551615");
}

#[test]
fn numbers_are_read_as_the_standard_library_reads_them() {
    for text in ["0", "7", "007", "+5", "4294967295", "4294967296", "", "+", "-1", "1a", " 1", "１"] {
        assert_eq!(number(text), text.parse::<u32>().ok());
    }
}

#[test]
fn roles_go_by_the_extension() {
    assert_eq!(classify("markdown/post.md"), Some(Role::ContentItem));
    assert_eq!(classify("markdown/POST.MD"), Some(Role::ContentItem));
    assert_eq!(classify("templates/post.html"), Some(Role::Template));
    assert_eq!(classify("templates/post.Html"), Some(Role::Template));
    assert_eq!(classify("markdown/notes.txt"), None);
    assert_eq!(classify("markdown/README"), None);
    assert_eq!(classify("markdown/.md"), None);
    assert_eq!(classify("markdown.md/file"), None);
    assert_eq!(classify("a.b.md"), Some(Role::ContentItem));
}

#[test]
fn the_site_names_three_templates() {
    assert_eq!(template_kind("templates/post.html"), TemplateKind::Post);
    assert_eq!(template_kind("templates/post_list.html"), TemplateKind::List);
    assert_eq!(template_kind("templates/post_list_item.html"), TemplateKind::ListItem);
    assert_eq!(template_kind("templates/header.html"), TemplateKind::Other);
}

#[test]
fn a_post_is_written_under_build_with_html_for_md() {
    assert_eq!(build_path("markdown/example.md"), "build/example.html");
    assert_eq!(build_path("example.md"), "build/example.html");
    assert_eq!(build_path("a/b/c.d.md"), "build/c.d.html");
    assert_eq!(link_path("markdown/example.md"), "example.html");
    assert_eq!(link_path("markdown/c.d.md"), "c.d.html");
}

#[test]
fn a_date_is_day_month_year_between_slashes() {
    assert_eq!(date("3/5/2021"), Some(Date { day: 3, month: 5, year: 2021 }));
    assert_eq!(date("03/05/2021"), Some(Date { day: 3, month: 5, year: 2021 }));
    assert_eq!(date("31/12/1000"), Some(Date { day: 31, month: 12, year: 1000 }));
}

#[test]
fn a_date_that_cannot_be_read_is_no_date() {
    for text in ["", "3/5", "3/5/2021/1", "3/13/2021", "3/0/2021", "3/5/999", "x/5/2021", "3 /5/2021", "3-5-2021"] {
        assert_eq!(date(text), None);
    }
}

#[test]
fn days_are_printed_as_ordinals() {
    let day = |day: u32| Date { day, month: 1, year: 2000 }.parts().0;
    for (n, text) in [
        (1, "1st"), (2, "2nd"), (3, "3rd"), (4, "4th"), (11, "11th"), (12, "12th"), (13, "13th"),
        (21, "21st"), (22, "22nd"), (23, "23rd"), (30, "30th"), (31, "31st"), (101, "101st"),
        (111, "111th"), (112, "112th"), (113, "113th"), (0, "0th"),
    ] {
        assert_eq!(day(n), text);
    }
}

#[test]
fn months_are_printed_by_name() {
    let names = [
        "January", "February", "March", "April", "May", "June", "July", "August", "September",
        "October", "November", "December",
    ];
    for (i, name) in names.iter().enumerate() {
        let parts = Date { day: 1, month: i as u32 + 1, year: 1999 }.parts();
        assert_eq!(parts.1, *name);
        assert_eq!(parts.2, 1999);
    }
}

#[test]
fn a_page_and_the_listing_print_the_date_each_in_its_way() {
    let date = Date { day: 3, month: 5, year: 2021 };
    assert_eq!(string_of(&post_date(&date)), "3rd of May, 2021");
    assert_eq!(string_of(&list_date(&date)), "3rd May 2021");
}

#[test]
fn later_dates_come_first() {
    let a = Date { day: 3, month: 5, year: 2021 };
    assert!(a.after(&Date { day: 2, month: 5, year: 2021 }));
    assert!(a.after(&Date { day: 30, month: 4, year: 2021 }));
    assert!(a.after(&Date { day: 31, month: 12, year: 2020 }));
    assert!(!a.after(&a));
    assert!(!a.after(&Date { day: 1, month: 1, year: 2022 }));
}
