//! The HTML and RSS text that the writer puts on disk: the all-posts page,
//! one page per tag, and the feed. Lists follow post-table order (most
//! recently created first), so output is reproducible.

use vstd::prelude::*;
use crate::domain::{Content, ContentS, PostMaps};
use crate::related::posts_idx_from;
use crate::text::{replace_all, replace_spec};

verus! {

/// A post without content, stood in for a filename that is not in the table.
pub open spec fn empty_content() -> ContentS {
    ContentS {
        created: Seq::empty(),
        filename: Seq::empty(),
        html: Seq::empty(),
        tags: Seq::empty(),
        title: Seq::empty(),
    }
}

/// The post filed under `f`, or an empty stand-in.
pub open spec fn lookup_content(posts: Seq<(Seq<char>, ContentS)>, f: Seq<char>) -> ContentS {
    let k = posts_idx_from(posts, f, 0);
    if 0 <= k < posts.len() {
        posts[k].1
    } else {
        empty_content()
    }
}

/// One list entry linking a post.
pub open spec fn li_item(base: Seq<char>, c: ContentS) -> Seq<char> {
    "<li><a href=\""@ + (base + "/posts/"@ + c.filename + ".html"@) + "\">"@ + c.title + "</a> "@
        + c.created + "</li>"@
}

/// The list entries for every post of the table, in table order.
pub open spec fn post_items(posts: Seq<(Seq<char>, ContentS)>, base: Seq<char>) -> Seq<char>
    decreases posts.len(),
{
    if posts.len() == 0 {
        Seq::empty()
    } else {
        post_items(posts.drop_last(), base) + li_item(base, posts.last().1)
    }
}

/// The list entries for the filenames of one tag, in the tag's list order.
pub open spec fn tag_items(
    files: Seq<Seq<char>>,
    posts: Seq<(Seq<char>, ContentS)>,
    base: Seq<char>,
) -> Seq<char>
    decreases files.len(),
{
    if files.len() == 0 {
        Seq::empty()
    } else {
        tag_items(files.drop_last(), posts, base) + li_item(
            base,
            lookup_content(posts, files.last()),
        )
    }
}

/// The page that lists every post.
pub open spec fn all_page_spec(
    posts: Seq<(Seq<char>, ContentS)>,
    base: Seq<char>,
    tag_html: Seq<char>,
) -> Seq<char> {
    replace_spec(
        replace_spec(tag_html, "{{title}}"@, "Posts tagged \"all\":"@),
        "{{content}}"@,
        post_items(posts, base),
    )
}

/// The page heading for one tag.
pub open spec fn tag_heading(tag: Seq<char>) -> Seq<char> {
    "Posts tagged \""@ + tag + "\":"@
}

/// The page that lists one tag's posts.
pub open spec fn tag_page_spec(
    files: Seq<Seq<char>>,
    posts: Seq<(Seq<char>, ContentS)>,
    tag: Seq<char>,
    base: Seq<char>,
    tag_html: Seq<char>,
) -> Seq<char> {
    replace_spec(
        replace_spec(tag_html, "{{title}}"@, tag_heading(tag)),
        "{{content}}"@,
        tag_items(files, posts, base),
    )
}

/// Finds a post by filename.
fn find_post<'a>(posts: &'a Vec<(String, Content)>, f: &String) -> (r: Option<&'a Content>)
    ensures
        (match r {
            Some(c) => lookup_content(crate::domain::posts_view(posts@), f@) == c@,
            None => lookup_content(crate::domain::posts_view(posts@), f@) == empty_content(),
        }),
{
    let ghost m = crate::domain::posts_view(posts@);
    let n: usize = posts.len();
    let mut k: usize = 0;
    while k < n
        invariant
            k <= n,
            n == posts@.len(),
            m == crate::domain::posts_view(posts@),
            posts_idx_from(m, f@, 0) == posts_idx_from(m, f@, k as int),
        decreases n - k,
    {
        if posts[k].0 == *f {
            proof {
                assert(m[k as int].0 == f@);
                assert(posts_idx_from(m, f@, k as int) == k as int);
                assert(m[k as int].1 == posts@[k as int].1@);
            }
            return Some(&posts[k].1);
        }
        k = k + 1;
    }
    proof {
        assert(posts_idx_from(m, f@, n as int) == -1);
    }
    None
}

/// Builds one list entry.
fn li_item_str(base: &str, filename: &str, title: &str, created: &str) -> (r: String)
    ensures
        r@ == "<li><a href=\""@ + (base@ + "/posts/"@ + filename@ + ".html"@) + "\">"@ + title@
            + "</a> "@ + created@ + "</li>"@,
{
    let mut url: String = base.to_owned();
    url.append("/posts/");
    url.append(filename);
    url.append(".html");
    let mut l: String = "<li><a href=\"".to_owned();
    l.append(url.as_str());
    l.append("\">");
    l.append(title);
    l.append("</a> ");
    l.append(created);
    l.append("</li>");
    l
}

/// Builds the page that lists every post.
pub fn all_posts_page(post_maps: &PostMaps, base_site_url: &str, tag_html: &str) -> (r: String)
    ensures
        r@ == all_page_spec(post_maps@.posts, base_site_url@, tag_html@),
{
    let ghost pv = crate::domain::posts_view(post_maps.posts@);
    let n: usize = post_maps.posts.len();
    let mut items: String = String::new();
    let mut i: usize = 0;
    proof {
        assert(pv.take(0) =~= Seq::<(Seq<char>, ContentS)>::empty());
    }
    while i < n
        invariant
            i <= n,
            n == post_maps.posts@.len(),
            pv == crate::domain::posts_view(post_maps.posts@),
            items@ == post_items(pv.take(i as int), base_site_url@),
        decreases n - i,
    {
        let c = &post_maps.posts[i].1;
        let l = li_item_str(
            base_site_url,
            c.filename.as_str(),
            c.title.as_str(),
            c.created.as_str(),
        );
        items.append(l.as_str());
        proof {
            assert(pv.take(i + 1).drop_last() =~= pv.take(i as int));
            assert(pv.take(i + 1).last() == pv[i as int]);
            assert(pv[i as int].1 == post_maps.posts@[i as int].1@);
        }
        i = i + 1;
    }
    proof {
        assert(pv.take(n as int) =~= pv);
    }
    let h1 = replace_all(tag_html, "{{title}}", "Posts tagged \"all\":");
    replace_all(h1.as_str(), "{{content}}", items.as_str())
}

/// Builds the page that lists the posts of one tag, given the tag's filename
/// list from the index.
pub fn tag_page(
    post_maps: &PostMaps,
    files: &Vec<String>,
    tag: &str,
    base_site_url: &str,
    tag_html: &str,
) -> (r: String)
    ensures
        r@ == tag_page_spec(
            crate::tags::tags_view(files@),
            post_maps@.posts,
            tag@,
            base_site_url@,
            tag_html@,
        ),
{
    let ghost fv = crate::tags::tags_view(files@);
    let ghost pv = crate::domain::posts_view(post_maps.posts@);
    let n: usize = files.len();
    let mut items: String = String::new();
    let mut i: usize = 0;
    proof {
        assert(fv.take(0) =~= Seq::<Seq<char>>::empty());
    }
    while i < n
        invariant
            i <= n,
            n == files@.len(),
            fv == crate::tags::tags_view(files@),
            pv == crate::domain::posts_view(post_maps.posts@),
            items@ == tag_items(fv.take(i as int), pv, base_site_url@),
        decreases n - i,
    {
        let l: String = match find_post(&post_maps.posts, &files[i]) {
            Some(c) => li_item_str(
                base_site_url,
                c.filename.as_str(),
                c.title.as_str(),
                c.created.as_str(),
            ),
            None => li_item_str(base_site_url, "", "", ""),
        };
        items.append(l.as_str());
        proof {
            assert(fv.take(i + 1).drop_last() =~= fv.take(i as int));
            assert(fv.take(i + 1).last() == fv[i as int]);
            assert(fv[i as int] == files@[i as int]@);
            reveal_strlit("");
            assert(""@ =~= Seq::<char>::empty());
        }
        i = i + 1;
    }
    proof {
        assert(fv.take(n as int) =~= fv);
    }
    let mut heading: String = "Posts tagged \"".to_owned();
    heading.append(tag);
    heading.append("\":");
    let h1 = replace_all(tag_html, "{{title}}", heading.as_str());
    replace_all(h1.as_str(), "{{content}}", items.as_str())
}

/// The feed's outer template.
pub open spec fn feed_shell() -> Seq<char> {
    "<?xml version=\"1.0\" encoding=\"UTF-8\" ?>\n        <rss version=\"2.0\">\n            <channel>\n                <title>sigtor</title>\n                <link>https://sigtor.org</link>\n                <description>Writings about Software, Weather, etc.</description>\n                {{items}}\n            </channel>\n        </rss>"@
}

/// One feed item.
pub open spec fn rss_item(base: Seq<char>, c: ContentS) -> Seq<char> {
    "<item>\n        <title>"@ + c.title + "</title>\n        <link>"@ + (base + "/posts/"@
        + c.filename + ".html"@) + "</link>\n        <pubDate>"@ + c.created
        + "</pubDate>\n    </item>"@
}

/// The feed items for the first `k` posts of the table.
pub open spec fn rss_items(posts: Seq<(Seq<char>, ContentS)>, base: Seq<char>) -> Seq<char>
    decreases posts.len(),
{
    if posts.len() == 0 {
        Seq::empty()
    } else {
        rss_items(posts.drop_last(), base) + rss_item(base, posts.last().1)
    }
}

/// The whole feed: the eight most recently created posts, in table order.
pub open spec fn rss_feed_spec(posts: Seq<(Seq<char>, ContentS)>, base: Seq<char>) -> Seq<char> {
    let top = if posts.len() <= 8 {
        posts
    } else {
        posts.take(8)
    };
    replace_spec(feed_shell(), "{{items}}"@, rss_items(top, base))
}

fn rss_item_str(base: &str, c: &Content) -> (r: String)
    ensures
        r@ == rss_item(base@, c@),
{
    let mut url: String = base.to_owned();
    url.append("/posts/");
    url.append(c.filename.as_str());
    url.append(".html");
    let mut s: String = "<item>\n        <title>".to_owned();
    s.append(c.title.as_str());
    s.append("</title>\n        <link>");
    s.append(url.as_str());
    s.append("</link>\n        <pubDate>");
    s.append(c.created.as_str());
    s.append("</pubDate>\n    </item>");
    s
}

/// Builds the RSS feed for the eight most recently created posts.
pub fn rss_feed(post_maps: &PostMaps, site_url: &str) -> (r: String)
    ensures
        r@ == rss_feed_spec(post_maps@.posts, site_url@),
{
    let ghost pv = crate::domain::posts_view(post_maps.posts@);
    let n: usize = post_maps.posts.len();
    let m: usize = if n < 8 {
        n
    } else {
        8
    };
    let mut items: String = String::new();
    let mut i: usize = 0;
    proof {
        assert(pv.take(0) =~= Seq::<(Seq<char>, ContentS)>::empty());
    }
    while i < m
        invariant
            i <= m,
            m <= n,
            n == post_maps.posts@.len(),
            pv == crate::domain::posts_view(post_maps.posts@),
            items@ == rss_items(pv.take(i as int), site_url@),
        decreases m - i,
    {
        let l = rss_item_str(site_url, &post_maps.posts[i].1);
        items.append(l.as_str());
        proof {
            assert(pv.take(i + 1).drop_last() =~= pv.take(i as int));
            assert(pv.take(i + 1).last() == pv[i as int]);
            assert(pv[i as int].1 == post_maps.posts@[i as int].1@);
        }
        i = i + 1;
    }
    proof {
        if pv.len() <= 8 {
            assert(pv.take(m as int) =~= pv);
        }
    }
    let shell: String =
        "<?xml version=\"1.0\" encoding=\"UTF-8\" ?>\n        <rss version=\"2.0\">\n            <channel>\n                <title>sigtor</title>\n                <link>https://sigtor.org</link>\n                <description>Writings about Software, Weather, etc.</description>\n                {{items}}\n            </channel>\n        </rss>".to_owned();
    replace_all(shell.as_str(), "{{items}}", items.as_str())
}

} // verus!
