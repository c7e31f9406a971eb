use ssg::converter::convert;
use ssg::highlight::Highlighter;
use ssg::pipeline::get_read_time;
use ssg::tags::parse_tags;
use ssg::text::{count_word_runs, replace_all, to_dec};

#[test]
fn title_is_extracted_and_suppressed() {
    let hl = Highlighter::new();
    let c = convert("# My Title\n\nBody text here.\n", &hl);
    assert_eq!(c.title, "My Title");
    assert!(!c.html.contains("<h1>"));
    assert!(c.html.contains("Body text here."));
}

#[test]
fn title_concatenates_inline_runs_of_first_heading() {
    let hl = Highlighter::new();
    let c = convert("# A *B* C\n\nbody\n\n# Second\n", &hl);
    assert_eq!(c.title, "A B C");
    assert!(!c.html.contains("<h1>"));
    assert!(!c.html.contains("<em>"));
    assert!(!c.html.contains("Second"));
    assert!(c.html.contains("body"));
}

#[test]
fn no_level_one_heading_gives_empty_title() {
    let hl = Highlighter::new();
    let c = convert("## Subheading\n\nSome words.\n", &hl);
    assert_eq!(c.title, "");
    assert!(c.html.contains("<h2>"));
}

#[test]
fn known_language_is_highlighted() {
    let hl = Highlighter::new();
    let c = convert("```rust\nfn main() {}\n```\n", &hl);
    assert!(c.html.contains("<pre"));
    assert!(!c.html.contains("<code class"));
}

#[test]
fn unknown_language_still_highlights_as_plain_text() {
    let hl = Highlighter::new();
    let c = convert("```nosuchlanguagetag\nplain words\n```\n", &hl);
    assert!(c.html.contains("<pre"));
    assert!(c.html.contains("plain words"));
}

#[test]
fn word_count_counts_maximal_runs_everywhere() {
    let hl = Highlighter::new();
    let c = convert("# a\n\n```rust\nlet x\n```\n", &hl);
    assert_eq!(c.word_count, 4);
    let c2 = convert("hello, world--again", &hl);
    assert_eq!(c2.word_count, 3);
    assert_eq!(count_word_runs("one two_three 4ever"), 3);
    assert_eq!(count_word_runs(""), 0);
    assert_eq!(count_word_runs("..!?"), 0);
}

#[test]
fn word_count_follows_unicode_word_characters() {
    assert_eq!(count_word_runs("naïve"), 1);
    assert_eq!(count_word_runs("héllo wörld"), 2);
    assert_eq!(count_word_runs("日本語 text"), 2);
}

#[test]
fn read_time_exact_values() {
    assert_eq!(get_read_time(0, 0), "0m read time");
    assert_eq!(get_read_time(0, 530), "2m read time");
    assert_eq!(get_read_time(60, 0), "11m read time");
}

#[test]
fn read_time_floors() {
    assert_eq!(get_read_time(0, 529), "1m read time");
    assert_eq!(get_read_time(5, 0), "0m read time");
    assert_eq!(get_read_time(6, 264), "1m read time");
}

#[test]
fn tag_line_parses_trimmed() {
    let tags = parse_tags("[tags]: # (a, b , c)");
    assert_eq!(tags, vec!["a".to_string(), "b".to_string(), "c".to_string()]);
}

#[test]
fn tag_line_anywhere_in_document() {
    let tags = parse_tags("# Title\n\nwords\n\n[tags]: # (weather, software)\n\nmore\n");
    assert_eq!(tags, vec!["weather".to_string(), "software".to_string()]);
}

#[test]
fn missing_tag_line_gives_no_tags() {
    let tags = parse_tags("# Title\n\nno tags here\n");
    assert_eq!(tags, Vec::<String>::new());
}

#[test]
fn unclosed_tag_line_is_skipped() {
    let tags = parse_tags("[tags]: # (open\n[tags]: # (real)\n");
    assert_eq!(tags, vec!["real".to_string()]);
}

#[test]
fn image_count_includes_footnote_images() {
    let hl = Highlighter::new();
    let c = convert(
        "![one](a.png)\n\nSee[^n]\n\n[^n]: note ![two](b.png)\n",
        &hl,
    );
    assert_eq!(c.image_count, 2);
}

#[test]
fn footnote_becomes_sidenote_with_numeral() {
    let hl = Highlighter::new();
    let c = convert("Hello[^1]\n\n[^1]: text\n", &hl);
    assert!(c.html.contains("<sup>1</sup>"));
    assert!(c.html.contains("<span class=\"sidenote\"><sup>1</sup>text</span>"));
    assert!(!c.html.contains("{{1 footnote}}"));
}

#[test]
fn fractional_footnote_label_gets_a_numeral() {
    let hl = Highlighter::new();
    let c = convert("Hello[^1.5]\n\n[^1.5]: half\n", &hl);
    assert!(c.html.contains("<sup>1.5</sup>"));
    assert!(c.html.contains("<span class=\"sidenote\"><sup>1.5</sup>half</span>"));
}

#[test]
fn non_numeric_footnote_has_no_numeral() {
    let hl = Highlighter::new();
    let c = convert("Hello[^note]\n\n[^note]: words here\n", &hl);
    assert!(c.html.contains("<span class=\"sidenote\">words here</span>"));
    assert!(!c.html.contains("<sup>"));
    assert!(!c.html.contains("{{note footnote}}"));
}

#[test]
fn links_open_in_new_tab() {
    let hl = Highlighter::new();
    let c = convert("[click](https://example.org)\n", &hl);
    assert!(c.html.contains("<a href=\"https://example.org\" target=\"_blank\">"));
}

#[test]
fn footnote_link_and_code_render_flat_in_sidenote() {
    let hl = Highlighter::new();
    let c = convert(
        "Ref[^2]\n\n[^2]: see `code` and [site](https://x.example)\n",
        &hl,
    );
    assert!(c.html.contains("<code>code</code>"));
    assert!(c.html.contains("<a href=\"https://x.example\" target=\"_blank\">"));
}

#[test]
fn replace_all_is_single_pass() {
    assert_eq!(replace_all("a{{x}}b", "{{x}}", "Y"), "aYb");
    assert_eq!(replace_all("aaa", "aa", "b"), "ba");
    assert_eq!(replace_all("ab", "a", "ab"), "abb");
    assert_eq!(replace_all("none", "{{x}}", "Y"), "none");
}

#[test]
fn decimal_rendering() {
    assert_eq!(to_dec(0), "0");
    assert_eq!(to_dec(7), "7");
    assert_eq!(to_dec(1234), "1234");
}
