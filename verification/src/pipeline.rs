//! The build pipeline around the converter: read-time derivation, ordering
//! posts by creation time, and building the post table and tag index.

use vstd::prelude::*;
use crate::converter::{convert, conv_html, conv_images, conv_title};
use crate::dates::{date_str, format_date};
use crate::domain::{
    files_view, posts_view, tp_view, Content, ContentS, File, FileS, PostMaps, PostMapsS,
};
use crate::highlight::Highlighter;
use crate::tags::{parse_tags, tags_of, tags_view};
use crate::text::{dec_str, replace_all, replace_spec, to_dec, word_run_count};

verus! {

/// The read-time line for a post: whole minutes, words at 265 a minute and
/// images at 11 seconds each.
pub open spec fn read_time_spec(image_count: nat, word_count: nat) -> Seq<char> {
    dec_str(word_count / 265 + (image_count * 11) / 60) + "m read time"@
}

/// Derives the read-time line from the image and word counts.
pub fn get_read_time(image_count: usize, word_count: usize) -> (r: String)
    ensures
        r@ == read_time_spec(image_count as nat, word_count as nat),
{
    let w: u128 = word_count as u128;
    let im: u128 = image_count as u128;
    let total: u128 = w / 265 + (im * 11) / 60;
    proof {
        let m: int = usize::MAX as int;
        vstd::arithmetic::div_mod::lemma_div_is_ordered(w as int, m, 265);
        vstd::arithmetic::div_mod::lemma_div_is_ordered(im as int * 11, m * 11, 60);
        assert(m / 265 + (m * 11) / 60 <= m);
    }
    let minutes: usize = total as usize;
    let mut s = to_dec(minutes);
    s.append("m read time");
    s
}

/// `f` inserted into the creation-descending list `s`, after any entry with
/// an equal or later creation time, so equal instants keep their order.
pub open spec fn insert_desc(f: FileS, s: Seq<FileS>) -> Seq<FileS>
    decreases s.len(),
{
    if s.len() == 0 {
        seq![f]
    } else if f.created.unix_seconds > s[0].created.unix_seconds {
        seq![f] + s
    } else {
        seq![s[0]] + insert_desc(f, s.drop_first())
    }
}

/// `s` sorted by creation time, newest first; ties keep their input order.
pub open spec fn sort_desc(s: Seq<FileS>) -> Seq<FileS>
    decreases s.len(),
{
    if s.len() == 0 {
        Seq::empty()
    } else {
        insert_desc(s.last(), sort_desc(s.drop_last()))
    }
}

/// A file list is in creation order when creation times never increase
/// along it.
pub open spec fn desc_ordered(s: Seq<FileS>) -> bool {
    forall|a: int, b: int| 0 <= a < b < s.len() ==> s[a].created.unix_seconds
        >= s[b].created.unix_seconds
}

proof fn lemma_insert_desc_bound(f: FileS, s: Seq<FileS>, bound: int)
    requires
        f.created.unix_seconds <= bound,
        forall|j: int| 0 <= j < s.len() ==> (#[trigger] s[j]).created.unix_seconds <= bound,
    ensures
        forall|k: int| 0 <= k < insert_desc(f, s).len() ==> (#[trigger] insert_desc(
            f,
            s,
        )[k]).created.unix_seconds <= bound,
    decreases s.len(),
{
    if s.len() != 0 && !(f.created.unix_seconds > s[0].created.unix_seconds) {
        let d = s.drop_first();
        lemma_insert_desc_bound(f, d, bound);
        assert forall|k: int| 0 <= k < insert_desc(f, s).len() implies (#[trigger] insert_desc(
            f,
            s,
        )[k]).created.unix_seconds <= bound by {
            if k > 0 {
                assert(insert_desc(f, s)[k] == insert_desc(f, d)[k - 1]);
            }
        }
    }
}

proof fn lemma_insert_desc_ordered(f: FileS, s: Seq<FileS>)
    requires
        desc_ordered(s),
    ensures
        desc_ordered(insert_desc(f, s)),
    decreases s.len(),
{
    if s.len() == 0 {
    } else if f.created.unix_seconds > s[0].created.unix_seconds {
        assert forall|a: int, b: int| 0 <= a < b < insert_desc(f, s).len() implies insert_desc(
            f,
            s,
        )[a].created.unix_seconds >= insert_desc(f, s)[b].created.unix_seconds by {
            assert(insert_desc(f, s) == seq![f] + s);
            if a > 0 {
                assert(s[a - 1].created.unix_seconds >= s[b - 1].created.unix_seconds);
            } else {
                assert(insert_desc(f, s)[b].created.unix_seconds == s[b
                    - 1].created.unix_seconds);
                if b - 1 > 0 {
                    assert(s[0].created.unix_seconds >= s[b - 1].created.unix_seconds);
                }
            }
        }
    } else {
        let d = s.drop_first();
        assert forall|a: int, b: int| 0 <= a < b < d.len() implies d[a].created.unix_seconds
            >= d[b].created.unix_seconds by {
            assert(d[a] == s[a + 1]);
            assert(d[b] == s[b + 1]);
        }
        lemma_insert_desc_ordered(f, d);
        assert forall|j: int| 0 <= j < d.len() implies (#[trigger] d[j]).created.unix_seconds
            <= s[0].created.unix_seconds by {
            assert(d[j] == s[j + 1]);
        }
        lemma_insert_desc_bound(f, d, s[0].created.unix_seconds as int);
        let t = insert_desc(f, d);
        assert forall|a: int, b: int| 0 <= a < b < insert_desc(f, s).len() implies insert_desc(
            f,
            s,
        )[a].created.unix_seconds >= insert_desc(f, s)[b].created.unix_seconds by {
            assert(insert_desc(f, s) == seq![s[0]] + t);
            if a > 0 {
                assert(insert_desc(f, s)[a] == t[a - 1]);
                assert(insert_desc(f, s)[b] == t[b - 1]);
            } else {
                assert(insert_desc(f, s)[b] == t[b - 1]);
                assert(t[b - 1].created.unix_seconds <= s[0].created.unix_seconds);
            }
        }
    }
}

/// Sorting really orders the files: the sorted list never has an older file
/// before a newer one.
pub proof fn lemma_sort_desc_ordered(s: Seq<FileS>)
    ensures
        desc_ordered(sort_desc(s)),
    decreases s.len(),
{
    if s.len() > 0 {
        lemma_sort_desc_ordered(s.drop_last());
        lemma_insert_desc_ordered(s.last(), sort_desc(s.drop_last()));
    }
}

proof fn lemma_insert_desc_split(f: FileS, s: Seq<FileS>, p: int)
    requires
        0 <= p <= s.len(),
        forall|k: int| 0 <= k < p ==> !(f.created.unix_seconds
            > #[trigger] s[k].created.unix_seconds),
        p < s.len() ==> f.created.unix_seconds > s[p].created.unix_seconds,
    ensures
        insert_desc(f, s) == s.subrange(0, p) + seq![f] + s.subrange(p, s.len() as int),
    decreases p,
{
    if p == 0 {
        if s.len() == 0 {
            assert(insert_desc(f, s) =~= s.subrange(0, 0) + seq![f] + s.subrange(0, 0));
        } else {
            assert(insert_desc(f, s) =~= s.subrange(0, 0) + seq![f] + s.subrange(
                0,
                s.len() as int,
            ));
        }
    } else {
        let d = s.drop_first();
        assert forall|k: int| 0 <= k < p - 1 implies !(f.created.unix_seconds
            > #[trigger] d[k].created.unix_seconds) by {
            assert(d[k] == s[k + 1]);
        }
        assert(p - 1 < d.len() ==> f.created.unix_seconds > d[p - 1].created.unix_seconds);
        lemma_insert_desc_split(f, d, p - 1);
        assert(insert_desc(f, s) == seq![s[0]] + (d.subrange(0, p - 1) + seq![f] + d.subrange(
            p - 1,
            d.len() as int,
        )));
        assert(seq![s[0]] + (d.subrange(0, p - 1) + seq![f] + d.subrange(p - 1, d.len() as int))
            =~= s.subrange(0, p) + seq![f] + s.subrange(p, s.len() as int));
    }
}

/// Inserts one file into a creation-descending list.
fn insert_file(sorted: &mut Vec<File>, f: File)
    ensures
        files_view(final(sorted)@) == insert_desc(f@, files_view(old(sorted)@)),
{
    let ghost fv = f@;
    let ghost sv = files_view(sorted@);
    let n: usize = sorted.len();
    let mut p: usize = 0;
    while p < n && !(f.created.unix_seconds > sorted[p].created.unix_seconds)
        invariant
            p <= n,
            n == sorted@.len(),
            sv == files_view(sorted@),
            fv == f@,
            forall|k: int| 0 <= k < p ==> !(fv.created.unix_seconds
                > #[trigger] sv[k].created.unix_seconds),
        decreases n - p,
    {
        proof {
            assert(sv[p as int] == sorted@[p as int]@);
        }
        p = p + 1;
    }
    proof {
        assert(p < n ==> fv.created.unix_seconds > sv[p as int].created.unix_seconds) by {
            if p < n {
                assert(sv[p as int] == sorted@[p as int]@);
            }
        }
        lemma_insert_desc_split(fv, sv, p as int);
    }
    sorted.insert(p, f);
    proof {
        assert(files_view(sorted@) =~= sv.subrange(0, p as int) + seq![fv] + sv.subrange(
            p as int,
            sv.len() as int,
        ));
    }
}

/// Sorts files by creation time, newest first; files created at the same
/// instant keep the order they were given in.
pub fn order_files(files: Vec<File>) -> (r: Vec<File>)
    ensures
        files_view(r@) == sort_desc(files_view(files@)),
{
    let ghost all = files_view(files@);
    let mut rest = files;
    let mut sorted: Vec<File> = Vec::new();
    let ghost mut j: int = 0;
    proof {
        assert(files_view(sorted@) =~= Seq::<FileS>::empty());
        assert(all.take(0) =~= Seq::<FileS>::empty());
    }
    while rest.len() > 0
        invariant
            0 <= j <= all.len(),
            rest@.len() == all.len() - j,
            forall|k: int| 0 <= k < rest@.len() ==> #[trigger] rest@[k]@ == all[j + k],
            files_view(sorted@) == sort_desc(all.take(j)),
        decreases rest.len(),
    {
        let ghost pp = rest@;
        let f = rest.remove(0);
        proof {
            assert(f@ == all[j]) by {
                assert(pp[0]@ == all[j + 0]);
            }
            assert(rest@ =~= pp.subrange(1, pp.len() as int));
            assert forall|k: int| 0 <= k < rest@.len() implies #[trigger] rest@[k]@ == all[(j + 1)
                + k] by {
                assert(rest@[k] == pp[k + 1]);
                assert(pp[k + 1]@ == all[j + (k + 1)]);
            }
        }
        insert_file(&mut sorted, f);
        proof {
            assert(all.take(j + 1).drop_last() =~= all.take(j));
            assert(all.take(j + 1).last() == all[j]);
            j = j + 1;
        }
    }
    proof {
        assert(all.take(j) =~= all);
    }
    sorted
}

/// The anchor that links a tag to its tag page.
pub open spec fn tag_link(base: Seq<char>, tag: Seq<char>) -> Seq<char> {
    "<a href=\""@ + (base + "/tags/"@ + tag) + "\">"@ + tag + "</a>"@
}

/// The tag links of a post, joined with a comma and a space.
pub open spec fn tags_html_spec(tags: Seq<Seq<char>>, base: Seq<char>) -> Seq<char>
    decreases tags.len(),
{
    if tags.len() == 0 {
        Seq::empty()
    } else if tags.len() == 1 {
        tag_link(base, tags[0])
    } else {
        tag_link(base, tags[0]) + ", "@ + tags_html_spec(tags.drop_first(), base)
    }
}

/// Builds one tag link.
fn tag_link_str(base: &str, tag: &str) -> (r: String)
    ensures
        r@ == tag_link(base@, tag@),
{
    let mut url: String = base.to_owned();
    url.append("/tags/");
    url.append(tag);
    let mut l: String = "<a href=\"".to_owned();
    l.append(url.as_str());
    l.append("\">");
    l.append(tag);
    l.append("</a>");
    l
}

/// Builds the joined tag links, starting at tag `i`.
fn tags_html_from(tags: &Vec<String>, base: &str, i: usize) -> (r: String)
    requires
        i <= tags@.len(),
    ensures
        r@ == tags_html_spec(tags_view(tags@).skip(i as int), base@),
    decreases tags@.len() - i,
{
    let n: usize = tags.len();
    let ghost tv = tags_view(tags@);
    proof {
        assert(tv.skip(i as int).len() == tv.len() - i);
    }
    if i >= n {
        proof {
            assert(tv.skip(i as int) =~= Seq::<Seq<char>>::empty());
        }
        String::new()
    } else if i == n - 1 {
        let l = tag_link_str(base, tags[i].as_str());
        proof {
            assert(tv.skip(i as int)[0] == tv[i as int]);
        }
        l
    } else {
        let mut l = tag_link_str(base, tags[i].as_str());
        l.append(", ");
        let rest = tags_html_from(tags, base, i + 1);
        l.append(rest.as_str());
        proof {
            assert(tv.skip(i as int)[0] == tv[i as int]);
            assert(tv.skip(i as int).drop_first() =~= tv.skip(i + 1));
        }
        l
    }
}

/// One converted post of the table: title, date, read time and tag links
/// substituted into the post template; the related list still pending.
pub open spec fn content_of(f: FileS, post_html: Seq<char>, base: Seq<char>) -> ContentS {
    let tags = tags_of(f.markdown);
    let created = date_str(f.created);
    let title = conv_title(f.markdown);
    let h1 = replace_spec(post_html, "{{content}}"@, conv_html(f.markdown));
    let h2 = replace_spec(h1, "{{date}}"@, created);
    let h3 = replace_spec(
        h2,
        "{{read_time}}"@,
        read_time_spec(conv_images(f.markdown), word_run_count(f.markdown)),
    );
    let h4 = replace_spec(h3, "{{title}}"@, title);
    let h5 = replace_spec(h4, "{{tags}}"@, tags_html_spec(tags, base));
    ContentS { created, filename: f.filename, html: h5, tags, title }
}

/// Converts one file and fills the post template.
fn build_content(f: &File, post_html: &str, base: &str, hl: &Highlighter) -> (r: Content)
    ensures
        r@ == content_of(f@, post_html@, base@),
{
    let tags = parse_tags(f.markdown.as_str());
    let created = format_date(&f.created);
    let conversion = convert(f.markdown.as_str(), hl);
    let read_time = get_read_time(conversion.image_count, conversion.word_count);
    let tags_html_s = tags_html_from(&tags, base, 0);
    proof {
        assert(tags_view(tags@).skip(0) =~= tags_view(tags@));
    }
    let h1 = replace_all(post_html, "{{content}}", conversion.html.as_str());
    let h2 = replace_all(h1.as_str(), "{{date}}", created.as_str());
    let h3 = replace_all(h2.as_str(), "{{read_time}}", read_time.as_str());
    let h4 = replace_all(h3.as_str(), "{{title}}", conversion.title.as_str());
    let h5 = replace_all(h4.as_str(), "{{tags}}", tags_html_s.as_str());
    let r = Content {
        created,
        filename: f.filename.clone(),
        html: h5,
        tags,
        title: conversion.title,
    };
    proof {
        assert(r@ =~~= content_of(f@, post_html@, base@));
    }
    r
}

/// The first position `>= from` of `tag` in the index, or -1.
pub open spec fn tp_idx_from(
    tp: Seq<(Seq<char>, Seq<Seq<char>>)>,
    tag: Seq<char>,
    from: int,
) -> int
    decreases tp.len() - from + 1,
{
    if from < 0 {
        tp_idx_from(tp, tag, 0)
    } else if from >= tp.len() {
        -1
    } else if tp[from].0 == tag {
        from
    } else {
        tp_idx_from(tp, tag, from + 1)
    }
}

/// The index with `filename` appended under `tag`: to the existing entry if
/// the tag is present, else as a new entry at the end.
pub open spec fn index_add(
    tp: Seq<(Seq<char>, Seq<Seq<char>>)>,
    tag: Seq<char>,
    filename: Seq<char>,
) -> Seq<(Seq<char>, Seq<Seq<char>>)> {
    let k = tp_idx_from(tp, tag, 0);
    if 0 <= k < tp.len() {
        tp.update(k, (tag, tp[k].1.push(filename)))
    } else {
        tp.push((tag, seq![filename]))
    }
}

/// The index with `filename` appended under each tag of `tags`, in order.
pub open spec fn index_add_all(
    tp: Seq<(Seq<char>, Seq<Seq<char>>)>,
    tags: Seq<Seq<char>>,
    filename: Seq<char>,
) -> Seq<(Seq<char>, Seq<Seq<char>>)>
    decreases tags.len(),
{
    if tags.len() == 0 {
        tp
    } else {
        index_add_all(index_add(tp, tags[0], filename), tags.drop_first(), filename)
    }
}

/// The inverted tag index of a file list, filenames in list order.
pub open spec fn build_index(files: Seq<FileS>) -> Seq<(Seq<char>, Seq<Seq<char>>)>
    decreases files.len(),
{
    if files.len() == 0 {
        Seq::empty()
    } else {
        index_add_all(
            build_index(files.drop_last()),
            tags_of(files.last().markdown),
            files.last().filename,
        )
    }
}

/// Appends `filename` under `tag` in the executable index.
fn index_add_exec(tp: &mut Vec<(String, Vec<String>)>, tag: &String, filename: &String)
    ensures
        tp_view(final(tp)@) == index_add(tp_view(old(tp)@), tag@, filename@),
{
    let ghost m = tp_view(tp@);
    let n: usize = tp.len();
    let mut k: usize = 0;
    while k < n
        invariant
            k <= n,
            n == tp@.len(),
            m == tp_view(tp@),
            m == tp_view(old(tp)@),
            tp_idx_from(m, tag@, 0) == tp_idx_from(m, tag@, k as int),
        decreases n - k,
    {
        if tp[k].0 == *tag {
            let (t, mut l) = tp.remove(k);
            l.push(filename.clone());
            tp.insert(k, (t, l));
            proof {
                assert(m[k as int].0 == tag@);
                assert(tp_idx_from(m, tag@, k as int) == k as int);
                assert(index_add(m, tag@, filename@) == m.update(
                    k as int,
                    (tag@, m[k as int].1.push(filename@)),
                ));
                assert(tags_view(l@) =~= m[k as int].1.push(filename@));
                assert(tp_view(tp@) =~~= m.update(
                    k as int,
                    (tag@, m[k as int].1.push(filename@)),
                ));
            }
            return ;
        }
        k = k + 1;
    }
    let mut single: Vec<String> = Vec::new();
    single.push(filename.clone());
    tp.push((tag.clone(), single));
    proof {
        assert(tp_idx_from(m, tag@, n as int) == -1);
        assert(index_add(m, tag@, filename@) == m.push((tag@, seq![filename@])));
        assert(tags_view(single@) =~= seq![filename@]);
        assert(tp_view(tp@) =~~= m.push((tag@, seq![filename@])));
    }
}

/// The filenames of a file list, in order.
pub open spec fn names_of(files: Seq<FileS>) -> Seq<Seq<char>> {
    Seq::new(files.len(), |i: int| files[i].filename)
}

/// A tag index is well-formed against `names` when every filename it lists
/// is one of them.
pub open spec fn index_wf(tp: Seq<(Seq<char>, Seq<Seq<char>>)>, names: Seq<Seq<char>>) -> bool {
    forall|k: int, j: int|
        0 <= k < tp.len() && 0 <= j < tp[k].1.len() ==> names.contains(#[trigger] tp[k].1[j])
}

proof fn lemma_index_add_wf(
    tp: Seq<(Seq<char>, Seq<Seq<char>>)>,
    tag: Seq<char>,
    f: Seq<char>,
    names: Seq<Seq<char>>,
)
    requires
        index_wf(tp, names),
        names.contains(f),
    ensures
        index_wf(index_add(tp, tag, f), names),
{
    let r = index_add(tp, tag, f);
    let k0 = tp_idx_from(tp, tag, 0);
    assert forall|k: int, j: int| 0 <= k < r.len() && 0 <= j < r[k].1.len() implies names.contains(
        #[trigger] r[k].1[j],
    ) by {
        if 0 <= k0 < tp.len() {
            if k == k0 {
                if j < tp[k0].1.len() {
                    assert(r[k].1[j] == tp[k0].1[j]);
                } else {
                    assert(r[k].1[j] == f);
                }
            } else {
                assert(r[k] == tp[k]);
            }
        } else {
            if k < tp.len() {
                assert(r[k] == tp[k]);
            } else {
                assert(r[k].1 =~= seq![f]);
                assert(r[k].1[j] == f);
            }
        }
    }
}

proof fn lemma_index_add_all_wf(
    tp: Seq<(Seq<char>, Seq<Seq<char>>)>,
    tags: Seq<Seq<char>>,
    f: Seq<char>,
    names: Seq<Seq<char>>,
)
    requires
        index_wf(tp, names),
        names.contains(f),
    ensures
        index_wf(index_add_all(tp, tags, f), names),
    decreases tags.len(),
{
    if tags.len() > 0 {
        lemma_index_add_wf(tp, tags[0], f, names);
        lemma_index_add_all_wf(index_add(tp, tags[0], f), tags.drop_first(), f, names);
    }
}

/// The tag index of a file list is well-formed: every filename in any tag's
/// list belongs to one of the files, and so to the post table built beside
/// it.
pub proof fn lemma_build_index_wf(files: Seq<FileS>)
    ensures
        index_wf(build_index(files), names_of(files)),
    decreases files.len(),
{
    if files.len() > 0 {
        let d = files.drop_last();
        lemma_build_index_wf(d);
        let names = names_of(files);
        assert forall|k: int, j: int|
            0 <= k < build_index(d).len() && 0 <= j < build_index(d)[k].1.len() implies names
            .contains(#[trigger] build_index(d)[k].1[j]) by {
            assert(names_of(d).contains(build_index(d)[k].1[j]));
            let w = choose|i: int|
                0 <= i < names_of(d).len() && names_of(d)[i] == build_index(d)[k].1[j];
            assert(names[w] == names_of(d)[w]);
        }
        assert(names[files.len() - 1] == files.last().filename);
        assert(names.contains(files.last().filename));
        lemma_index_add_all_wf(
            build_index(d),
            tags_of(files.last().markdown),
            files.last().filename,
            names,
        );
    }
}

/// The post table and tag index of an ordered file list.
pub open spec fn post_maps_of(files: Seq<FileS>, post_html: Seq<char>, base: Seq<char>) -> PostMapsS {
    PostMapsS {
        posts: Seq::new(
            files.len(),
            |i: int| (files[i].filename, content_of(files[i], post_html, base)),
        ),
        tag_posts: build_index(files),
    }
}

/// Converts every file, fills the post template, and builds the tag index.
/// Files are processed in the given order, so the table and every tag's list
/// keep that order.
pub fn get_post_maps(
    post_files: &Vec<File>,
    post_html: &str,
    base_site_url: &str,
    hl: &Highlighter,
) -> (r: PostMaps)
    ensures
        r@ == post_maps_of(files_view(post_files@), post_html@, base_site_url@),
{
    let ghost fv = files_view(post_files@);
    let mut posts: Vec<(String, Content)> = Vec::new();
    let mut tag_posts: Vec<(String, Vec<String>)> = Vec::new();
    let n: usize = post_files.len();
    let mut i: usize = 0;
    proof {
        assert(fv.take(0) =~= Seq::<FileS>::empty());
    }
    while i < n
        invariant
            i <= n,
            n == post_files@.len(),
            fv == files_view(post_files@),
            posts@.len() == i,
            forall|k: int| 0 <= k < i ==> #[trigger] posts_view(posts@)[k] == (
                fv[k].filename,
                content_of(fv[k], post_html@, base_site_url@),
            ),
            tp_view(tag_posts@) == build_index(fv.take(i as int)),
        decreases n - i,
    {
        let file = &post_files[i];
        proof {
            assert(file@ == fv[i as int]);
        }
        let c = build_content(file, post_html, base_site_url, hl);
        let ghost tgs = tags_of(fv[i as int].markdown);
        let ghost tp0 = tp_view(tag_posts@);
        let tn: usize = c.tags.len();
        let mut t: usize = 0;
        proof {
            assert(tags_view(c.tags@) == tgs);
            assert(tgs.skip(0) =~= tgs);
        }
        while t < tn
            invariant
                t <= tn,
                tn == c.tags@.len(),
                tags_view(c.tags@) == tgs,
                file@.filename == fv[i as int].filename,
                index_add_all(tp0, tgs, fv[i as int].filename) == index_add_all(
                    tp_view(tag_posts@),
                    tgs.skip(t as int),
                    fv[i as int].filename,
                ),
            decreases tn - t,
        {
            index_add_exec(&mut tag_posts, &c.tags[t], &file.filename);
            proof {
                assert(tgs.skip(t as int)[0] == tgs[t as int]);
                assert(tgs[t as int] == c.tags@[t as int]@);
                assert(tgs.skip(t as int).drop_first() =~= tgs.skip(t + 1));
            }
            t = t + 1;
        }
        proof {
            assert(tgs.skip(tn as int) =~= Seq::<Seq<char>>::empty());
            assert(fv.take(i + 1).drop_last() =~= fv.take(i as int));
            assert(fv.take(i + 1).last() == fv[i as int]);
            assert(build_index(fv.take(i + 1)) == index_add_all(
                build_index(fv.take(i as int)),
                tags_of(fv[i as int].markdown),
                fv[i as int].filename,
            ));
        }
        let ghost prev_posts = posts_view(posts@);
        posts.push((file.filename.clone(), c));
        proof {
            assert(posts_view(posts@) =~= prev_posts.push(
                (fv[i as int].filename, content_of(fv[i as int], post_html@, base_site_url@)),
            ));
        }
        i = i + 1;
    }
    let r = PostMaps { posts, tag_posts };
    proof {
        assert(fv.take(n as int) =~= fv);
        let want = post_maps_of(fv, post_html@, base_site_url@);
        assert forall|k: int| 0 <= k < n implies posts_view(posts@)[k] == want.posts[k] by {
            assert(posts_view(posts@)[k] == (
                fv[k].filename,
                content_of(fv[k], post_html@, base_site_url@),
            ));
        }
        assert(r@.posts =~= want.posts);
        assert(r@ =~~= want);
    }
    r
}

} // verus!
