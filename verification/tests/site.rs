use ssg::dates::format_date;
use ssg::domain::{Created, File};
use ssg::highlight::Highlighter;
use ssg::pages::{all_posts_page, rss_feed, tag_page};
use ssg::pipeline::{get_post_maps, order_files};
use ssg::related::get_posts_with_related;

fn file(name: &str, md: &str, secs: i64) -> File {
    File {
        created: Created { unix_seconds: secs, year: 2024, month: 3, day: 9 },
        filename: name.to_string(),
        markdown: md.to_string(),
    }
}

#[test]
fn date_formatting() {
    assert_eq!(
        format_date(&Created { unix_seconds: 0, year: 2024, month: 1, day: 5 }),
        "Jan 05 2024"
    );
    assert_eq!(
        format_date(&Created { unix_seconds: 0, year: 987, month: 12, day: 31 }),
        "Dec 31 0987"
    );
}

#[test]
fn files_sort_newest_first_and_stay_stable() {
    let files = vec![
        file("a", "", 10),
        file("b", "", 30),
        file("c", "", 20),
        file("d", "", 30),
    ];
    let sorted = order_files(files);
    let names: Vec<&str> = sorted.iter().map(|f| f.filename.as_str()).collect();
    assert_eq!(names, vec!["b", "d", "c", "a"]);
}

#[test]
fn post_template_tokens_are_filled() {
    let hl = Highlighter::new();
    let files = vec![file(
        "hello",
        "# Hi\n\n[tags]: # (t1, t2)\n\nBody words.\n",
        100,
    )];
    let tpl = "T:{{title}} D:{{date}} R:{{read_time}} G:{{tags}} C:{{content}}";
    let maps = get_post_maps(&files, tpl, "https://s.example", &hl);
    assert_eq!(maps.posts.len(), 1);
    let (name, content) = &maps.posts[0];
    assert_eq!(name, "hello");
    assert_eq!(content.title, "Hi");
    assert!(content.html.contains("T:Hi"));
    assert!(content.html.contains("D:Mar 09 2024"));
    assert!(content.html.contains("R:0m read time"));
    assert!(content.html.contains("G:<a href=\"https://s.example/tags/t1\">t1</a>, <a href=\"https://s.example/tags/t2\">t2</a>"));
    assert!(content.html.contains("Body words."));
    assert_eq!(content.tags, vec!["t1".to_string(), "t2".to_string()]);
}

#[test]
fn tag_index_keeps_post_order() {
    let hl = Highlighter::new();
    let files = vec![
        file("p1", "[tags]: # (a, b)\n", 40),
        file("p2", "[tags]: # (a)\n", 30),
        file("p3", "[tags]: # (b)\n", 20),
    ];
    let maps = get_post_maps(&files, "{{related}}", "u", &hl);
    assert_eq!(maps.tag_posts.len(), 2);
    let (tag_a, list_a) = &maps.tag_posts[0];
    assert_eq!(tag_a, "a");
    assert_eq!(list_a, &vec!["p1".to_string(), "p2".to_string()]);
    let (tag_b, list_b) = &maps.tag_posts[1];
    assert_eq!(tag_b, "b");
    assert_eq!(list_b, &vec!["p1".to_string(), "p3".to_string()]);
}

#[test]
fn related_ranking_by_shared_tags() {
    let hl = Highlighter::new();
    let files = vec![
        file("p1", "[tags]: # (a, b)\n", 40),
        file("p2", "[tags]: # (a)\n", 30),
        file("p3", "[tags]: # (b)\n", 20),
        file("p4", "[tags]: # (a, b)\n", 10),
    ];
    let maps = get_post_maps(&files, "{{related}}", "u", &hl);
    let posts = get_posts_with_related(&maps, "u");
    let p4 = posts.iter().find(|c| c.filename == "p4").unwrap();
    assert_eq!(
        p4.html,
        "<a href=\"u/posts/p1.html\"></a><a href=\"u/posts/p2.html\"></a><a href=\"u/posts/p3.html\"></a>"
    );
    assert!(!p4.html.contains("p4"));
}

#[test]
fn related_list_is_cut_to_three() {
    let hl = Highlighter::new();
    let files = vec![
        file("s", "[tags]: # (a)\n", 60),
        file("r1", "[tags]: # (a)\n", 50),
        file("r2", "[tags]: # (a)\n", 40),
        file("r3", "[tags]: # (a)\n", 30),
        file("r4", "[tags]: # (a)\n", 20),
    ];
    let maps = get_post_maps(&files, "{{related}}", "u", &hl);
    let posts = get_posts_with_related(&maps, "u");
    let s = posts.iter().find(|c| c.filename == "s").unwrap();
    assert_eq!(
        s.html,
        "<a href=\"u/posts/r1.html\"></a><a href=\"u/posts/r2.html\"></a><a href=\"u/posts/r3.html\"></a>"
    );
}

#[test]
fn untagged_post_has_no_related_links() {
    let hl = Highlighter::new();
    let files = vec![file("alone", "words\n", 10)];
    let maps = get_post_maps(&files, "[{{related}}]", "u", &hl);
    let posts = get_posts_with_related(&maps, "u");
    assert_eq!(posts[0].html, "[]");
}

#[test]
fn all_page_lists_every_post() {
    let hl = Highlighter::new();
    let files = vec![
        file("one", "# One\n", 20),
        file("two", "# Two\n", 10),
    ];
    let maps = get_post_maps(&files, "x", "u", &hl);
    let page = all_posts_page(&maps, "u", "H:{{title}} B:{{content}}");
    assert!(page.contains("H:Posts tagged \"all\":"));
    assert!(page.contains("<li><a href=\"u/posts/one.html\">One</a> Mar 09 2024</li>"));
    assert!(page.contains("<li><a href=\"u/posts/two.html\">Two</a> Mar 09 2024</li>"));
}

#[test]
fn tag_page_lists_only_that_tag() {
    let hl = Highlighter::new();
    let files = vec![
        file("one", "# One\n\n[tags]: # (x)\n", 20),
        file("two", "# Two\n\n[tags]: # (y)\n", 10),
    ];
    let maps = get_post_maps(&files, "x", "u", &hl);
    let (tag, list) = &maps.tag_posts[0];
    assert_eq!(tag, "x");
    let page = tag_page(&maps, list, tag, "u", "H:{{title}} B:{{content}}");
    assert!(page.contains("H:Posts tagged \"x\":"));
    assert!(page.contains("one.html"));
    assert!(!page.contains("two.html"));
}

#[test]
fn rss_feed_holds_eight_most_recent() {
    let hl = Highlighter::new();
    let mut files = Vec::new();
    for i in 0..9i64 {
        let name = format!("p{}", i);
        files.push(file(&name, "# T\n", 100 - i));
    }
    let maps = get_post_maps(&files, "x", "https://sigtor.org", &hl);
    let feed = rss_feed(&maps, "https://sigtor.org");
    assert!(feed.starts_with("<?xml"));
    assert!(feed.contains("<title>sigtor</title>"));
    assert!(feed.contains("p0.html"));
    assert!(feed.contains("p7.html"));
    assert!(!feed.contains("p8.html"));
    assert!(feed.contains("<pubDate>Mar 09 2024</pubDate>"));
}

#[test]
fn rerun_produces_identical_output() {
    let hl = Highlighter::new();
    let make = || {
        vec![
            file("p1", "# A\n\n[tags]: # (a, b)\n\nwords\n", 40),
            file("p2", "# B\n\n[tags]: # (a)\n", 40),
            file("p3", "# C\n\n[tags]: # (b)\n", 20),
        ]
    };
    let run = |files: Vec<File>| {
        let sorted = order_files(files);
        let maps = get_post_maps(&sorted, "{{title}}|{{related}}", "u", &hl);
        let posts = get_posts_with_related(&maps, "u");
        let mut out: Vec<String> = posts.iter().map(|c| c.html.clone()).collect();
        out.push(all_posts_page(&maps, "u", "{{title}}|{{content}}"));
        out.push(rss_feed(&maps, "u"));
        out
    };
    assert_eq!(run(make()), run(make()));
}
