//! Related posts: for each post, every post filename listed under a shared
//! tag scores one point per shared tag occurrence; candidates are ordered by
//! descending score and truncated to three. Ties keep post-table order (most
//! recently created first), so a build is reproducible.

use vstd::prelude::*;
use crate::domain::{posts_view, Content, ContentS, PostMaps, PostMapsS};
use crate::pipeline::tp_idx_from;
use crate::text::{replace_all, replace_spec};

verus! {

/// How many times `f` occurs in `l`.
pub open spec fn count_in(l: Seq<Seq<char>>, f: Seq<char>) -> nat
    decreases l.len(),
{
    if l.len() == 0 {
        0
    } else {
        (if l[0] == f {
            1nat
        } else {
            0nat
        }) + count_in(l.drop_first(), f)
    }
}

/// The filenames listed under `tag`, empty when the tag is absent.
pub open spec fn tp_lookup(tp: Seq<(Seq<char>, Seq<Seq<char>>)>, tag: Seq<char>) -> Seq<Seq<char>> {
    let k = tp_idx_from(tp, tag, 0);
    if 0 <= k < tp.len() {
        tp[k].1
    } else {
        Seq::empty()
    }
}

/// The relatedness score of post `f` against a subject with tags `tags`: one
/// point for each occurrence of `f` under each subject tag.
pub open spec fn score_of(
    tags: Seq<Seq<char>>,
    tp: Seq<(Seq<char>, Seq<Seq<char>>)>,
    f: Seq<char>,
) -> nat
    decreases tags.len(),
{
    if tags.len() == 0 {
        0
    } else {
        count_in(tp_lookup(tp, tags[0]), f) + score_of(tags.drop_first(), tp, f)
    }
}

/// The scored candidates for a subject, in post-table order, the subject
/// itself and zero scores left out.
pub open spec fn cands_of(
    posts: Seq<(Seq<char>, ContentS)>,
    subject: Seq<char>,
    tags: Seq<Seq<char>>,
    tp: Seq<(Seq<char>, Seq<Seq<char>>)>,
) -> Seq<(Seq<char>, int)>
    decreases posts.len(),
{
    if posts.len() == 0 {
        Seq::empty()
    } else {
        let sc = score_of(tags, tp, posts[0].0) as int;
        let rest = cands_of(posts.drop_first(), subject, tags, tp);
        if posts[0].0 != subject && sc > 0 {
            seq![(posts[0].0, sc)] + rest
        } else {
            rest
        }
    }
}

/// `c` inserted into the score-descending list `s`, after entries with an
/// equal or higher score, so ties keep their order.
pub open spec fn insert_cand(c: (Seq<char>, int), s: Seq<(Seq<char>, int)>) -> Seq<
    (Seq<char>, int),
>
    decreases s.len(),
{
    if s.len() == 0 {
        seq![c]
    } else if c.1 > s[0].1 {
        seq![c] + s
    } else {
        seq![s[0]] + insert_cand(c, s.drop_first())
    }
}

/// The candidates sorted by descending score; ties keep their input order.
pub open spec fn sort_cands(s: Seq<(Seq<char>, int)>) -> Seq<(Seq<char>, int)>
    decreases s.len(),
{
    if s.len() == 0 {
        Seq::empty()
    } else {
        insert_cand(s.last(), sort_cands(s.drop_last()))
    }
}

/// The first position `>= from` of filename `f` in the post table, or -1.
pub open spec fn posts_idx_from(posts: Seq<(Seq<char>, ContentS)>, f: Seq<char>, from: int) -> int
    decreases posts.len() - from + 1,
{
    if from < 0 {
        posts_idx_from(posts, f, 0)
    } else if from >= posts.len() {
        -1
    } else if posts[from].0 == f {
        from
    } else {
        posts_idx_from(posts, f, from + 1)
    }
}

/// The title of the post filed under `f`, empty when there is none.
pub open spec fn lookup_title(posts: Seq<(Seq<char>, ContentS)>, f: Seq<char>) -> Seq<char> {
    let k = posts_idx_from(posts, f, 0);
    if 0 <= k < posts.len() {
        posts[k].1.title
    } else {
        Seq::empty()
    }
}

/// The anchor that links a related post.
pub open spec fn rel_link(base: Seq<char>, f: Seq<char>, title: Seq<char>) -> Seq<char> {
    "<a href=\""@ + (base + "/posts/"@ + f + ".html"@) + "\">"@ + title + "</a>"@
}

/// The concatenated links of a related list.
pub open spec fn rel_links(
    s: Seq<(Seq<char>, int)>,
    posts: Seq<(Seq<char>, ContentS)>,
    base: Seq<char>,
) -> Seq<char>
    decreases s.len(),
{
    if s.len() == 0 {
        Seq::empty()
    } else {
        rel_links(s.drop_last(), posts, base) + rel_link(
            base,
            s.last().0,
            lookup_title(posts, s.last().0),
        )
    }
}

/// One output post: the subject with its related links substituted for the
/// `{{related}}` token.
pub open spec fn related_entry(pm: PostMapsS, i: int, base: Seq<char>) -> ContentS {
    let f = pm.posts[i].0;
    let c = pm.posts[i].1;
    let sorted = sort_cands(cands_of(pm.posts, f, c.tags, pm.tag_posts));
    let top = if sorted.len() <= 3 {
        sorted
    } else {
        sorted.take(3)
    };
    ContentS {
        created: c.created,
        filename: f,
        html: replace_spec(c.html, "{{related}}"@, rel_links(top, pm.posts, base)),
        tags: c.tags,
        title: c.title,
    }
}

/// The whole output list, in post-table order.
pub open spec fn related_of(pm: PostMapsS, base: Seq<char>) -> Seq<ContentS> {
    Seq::new(pm.posts.len(), |i: int| related_entry(pm, i, base))
}

/// The model of a content list.
pub open spec fn contents_view(s: Seq<Content>) -> Seq<ContentS> {
    Seq::new(s.len(), |i: int| s[i]@)
}

/// The model of a candidate list.
pub open spec fn cands_view(s: Seq<(String, u128)>) -> Seq<(Seq<char>, int)> {
    Seq::new(s.len(), |i: int| (s[i].0@, s[i].1 as int))
}

/// A candidate list is ranked when scores never increase along it.
pub open spec fn ranked(s: Seq<(Seq<char>, int)>) -> bool {
    forall|a: int, b: int| 0 <= a < b < s.len() ==> s[a].1 >= s[b].1
}

proof fn lemma_insert_cand_bound(c: (Seq<char>, int), s: Seq<(Seq<char>, int)>, bound: int)
    requires
        c.1 <= bound,
        forall|j: int| 0 <= j < s.len() ==> #[trigger] s[j].1 <= bound,
    ensures
        forall|k: int| 0 <= k < insert_cand(c, s).len() ==> #[trigger] insert_cand(c, s)[k].1
            <= bound,
    decreases s.len(),
{
    if s.len() != 0 && !(c.1 > s[0].1) {
        let d = s.drop_first();
        lemma_insert_cand_bound(c, d, bound);
        assert forall|k: int| 0 <= k < insert_cand(c, s).len() implies #[trigger] insert_cand(
            c,
            s,
        )[k].1 <= bound by {
            if k > 0 {
                assert(insert_cand(c, s)[k] == insert_cand(c, d)[k - 1]);
            }
        }
    }
}

proof fn lemma_insert_cand_keeps(c: (Seq<char>, int), s: Seq<(Seq<char>, int)>, f: Seq<char>)
    requires
        c.0 != f,
        forall|j: int| 0 <= j < s.len() ==> (#[trigger] s[j]).0 != f,
    ensures
        forall|k: int| 0 <= k < insert_cand(c, s).len() ==> (#[trigger] insert_cand(c, s)[k]).0
            != f,
    decreases s.len(),
{
    if s.len() != 0 && !(c.1 > s[0].1) {
        let d = s.drop_first();
        lemma_insert_cand_keeps(c, d, f);
        assert forall|k: int| 0 <= k < insert_cand(c, s).len() implies (#[trigger] insert_cand(
            c,
            s,
        )[k]).0 != f by {
            if k > 0 {
                assert(insert_cand(c, s)[k] == insert_cand(c, d)[k - 1]);
            }
        }
    }
}

proof fn lemma_insert_cand_ranked(c: (Seq<char>, int), s: Seq<(Seq<char>, int)>)
    requires
        ranked(s),
    ensures
        ranked(insert_cand(c, s)),
    decreases s.len(),
{
    if s.len() == 0 {
    } else if c.1 > s[0].1 {
        assert forall|a: int, b: int| 0 <= a < b < insert_cand(c, s).len() implies insert_cand(
            c,
            s,
        )[a].1 >= insert_cand(c, s)[b].1 by {
            assert(insert_cand(c, s) == seq![c] + s);
            if a > 0 {
                assert(s[a - 1].1 >= s[b - 1].1);
            } else {
                assert(insert_cand(c, s)[b].1 == s[b - 1].1);
                if b - 1 > 0 {
                    assert(s[0].1 >= s[b - 1].1);
                }
            }
        }
    } else {
        let d = s.drop_first();
        assert forall|a: int, b: int| 0 <= a < b < d.len() implies d[a].1 >= d[b].1 by {
            assert(d[a] == s[a + 1]);
            assert(d[b] == s[b + 1]);
        }
        lemma_insert_cand_ranked(c, d);
        assert forall|j: int| 0 <= j < d.len() implies #[trigger] d[j].1 <= s[0].1 by {
            assert(d[j] == s[j + 1]);
        }
        lemma_insert_cand_bound(c, d, s[0].1);
        let t = insert_cand(c, d);
        assert forall|a: int, b: int| 0 <= a < b < insert_cand(c, s).len() implies insert_cand(
            c,
            s,
        )[a].1 >= insert_cand(c, s)[b].1 by {
            assert(insert_cand(c, s) == seq![s[0]] + t);
            if a > 0 {
                assert(insert_cand(c, s)[a] == t[a - 1]);
                assert(insert_cand(c, s)[b] == t[b - 1]);
            } else {
                assert(insert_cand(c, s)[b] == t[b - 1]);
                assert(t[b - 1].1 <= s[0].1);
            }
        }
    }
}

/// The sorted candidate list is ranked: scores never increase along it, so
/// the highest-scoring related posts come first.
pub proof fn lemma_sort_cands_ranked(s: Seq<(Seq<char>, int)>)
    ensures
        ranked(sort_cands(s)),
    decreases s.len(),
{
    if s.len() > 0 {
        lemma_sort_cands_ranked(s.drop_last());
        lemma_insert_cand_ranked(s.last(), sort_cands(s.drop_last()));
    }
}

/// The candidates for a subject never include the subject itself.
pub proof fn lemma_cands_exclude_subject(
    posts: Seq<(Seq<char>, ContentS)>,
    subject: Seq<char>,
    tags: Seq<Seq<char>>,
    tp: Seq<(Seq<char>, Seq<Seq<char>>)>,
)
    ensures
        forall|k: int| 0 <= k < cands_of(posts, subject, tags, tp).len() ==> (
        #[trigger] cands_of(posts, subject, tags, tp)[k]).0 != subject,
    decreases posts.len(),
{
    if posts.len() > 0 {
        lemma_cands_exclude_subject(posts.drop_first(), subject, tags, tp);
        let rest = cands_of(posts.drop_first(), subject, tags, tp);
        let whole = cands_of(posts, subject, tags, tp);
        assert forall|k: int| 0 <= k < whole.len() implies (#[trigger] whole[k]).0 != subject by {
            let sc = score_of(tags, tp, posts[0].0) as int;
            if posts[0].0 != subject && sc > 0 {
                if k > 0 {
                    assert(whole[k] == rest[k - 1]);
                }
            } else {
                assert(whole[k] == rest[k]);
            }
        }
    }
}

/// The whole ranking law: the list a subject's related links are drawn from
/// is ranked by descending score and never names the subject.
pub proof fn lemma_ranking(
    posts: Seq<(Seq<char>, ContentS)>,
    subject: Seq<char>,
    tags: Seq<Seq<char>>,
    tp: Seq<(Seq<char>, Seq<Seq<char>>)>,
)
    ensures
        ranked(sort_cands(cands_of(posts, subject, tags, tp))),
        forall|k: int|
            0 <= k < sort_cands(cands_of(posts, subject, tags, tp)).len() ==> (
            #[trigger] sort_cands(cands_of(posts, subject, tags, tp))[k]).0 != subject,
{
    let cands = cands_of(posts, subject, tags, tp);
    lemma_sort_cands_ranked(cands);
    lemma_cands_exclude_subject(posts, subject, tags, tp);
    lemma_sort_keeps(cands, subject);
}

proof fn lemma_sort_keeps(s: Seq<(Seq<char>, int)>, f: Seq<char>)
    requires
        forall|j: int| 0 <= j < s.len() ==> (#[trigger] s[j]).0 != f,
    ensures
        forall|k: int| 0 <= k < sort_cands(s).len() ==> (#[trigger] sort_cands(s)[k]).0 != f,
    decreases s.len(),
{
    if s.len() > 0 {
        let d = s.drop_last();
        assert forall|j: int| 0 <= j < d.len() implies (#[trigger] d[j]).0 != f by {
            assert(d[j] == s[j]);
        }
        lemma_sort_keeps(d, f);
        lemma_insert_cand_keeps(s.last(), sort_cands(d), f);
    }
}

proof fn lemma_insert_cand_split(c: (Seq<char>, int), s: Seq<(Seq<char>, int)>, p: int)
    requires
        0 <= p <= s.len(),
        forall|k: int| 0 <= k < p ==> !(c.1 > #[trigger] s[k].1),
        p < s.len() ==> c.1 > s[p].1,
    ensures
        insert_cand(c, s) == s.subrange(0, p) + seq![c] + s.subrange(p, s.len() as int),
    decreases p,
{
    if p == 0 {
        if s.len() == 0 {
            assert(insert_cand(c, s) =~= s.subrange(0, 0) + seq![c] + s.subrange(0, 0));
        } else {
            assert(insert_cand(c, s) =~= s.subrange(0, 0) + seq![c] + s.subrange(
                0,
                s.len() as int,
            ));
        }
    } else {
        let d = s.drop_first();
        assert forall|k: int| 0 <= k < p - 1 implies !(c.1 > #[trigger] d[k].1) by {
            assert(d[k] == s[k + 1]);
        }
        assert(p - 1 < d.len() ==> c.1 > d[p - 1].1);
        lemma_insert_cand_split(c, d, p - 1);
        assert(seq![s[0]] + (d.subrange(0, p - 1) + seq![c] + d.subrange(p - 1, d.len() as int))
            =~= s.subrange(0, p) + seq![c] + s.subrange(p, s.len() as int));
    }
}

/// Inserts one candidate into a score-descending list.
fn insert_cand_exec(sorted: &mut Vec<(String, u128)>, c: (String, u128))
    ensures
        cands_view(final(sorted)@) == insert_cand((c.0@, c.1 as int), cands_view(old(sorted)@)),
{
    let ghost cv = (c.0@, c.1 as int);
    let ghost sv = cands_view(sorted@);
    let n: usize = sorted.len();
    let mut p: usize = 0;
    while p < n && !(c.1 > sorted[p].1)
        invariant
            p <= n,
            n == sorted@.len(),
            sv == cands_view(sorted@),
            cv == (c.0@, c.1 as int),
            forall|k: int| 0 <= k < p ==> !(cv.1 > #[trigger] sv[k].1),
        decreases n - p,
    {
        proof {
            assert(sv[p as int] == (sorted@[p as int].0@, sorted@[p as int].1 as int));
        }
        p = p + 1;
    }
    proof {
        assert(p < n ==> cv.1 > sv[p as int].1) by {
            if p < n {
                assert(sv[p as int] == (sorted@[p as int].0@, sorted@[p as int].1 as int));
            }
        }
        lemma_insert_cand_split(cv, sv, p as int);
    }
    sorted.insert(p, c);
    proof {
        assert(cands_view(sorted@) =~= sv.subrange(0, p as int) + seq![cv] + sv.subrange(
            p as int,
            sv.len() as int,
        ));
    }
}

/// Counts the occurrences of `f` in `l`.
fn count_occurrences(l: &Vec<String>, f: &String) -> (r: usize)
    ensures
        r == count_in(crate::tags::tags_view(l@), f@),
{
    let ghost lv = crate::tags::tags_view(l@);
    let n: usize = l.len();
    let mut c: usize = 0;
    let mut x: usize = 0;
    proof {
        assert(lv.skip(0) =~= lv);
    }
    while x < n
        invariant
            x <= n,
            n == l@.len(),
            lv == crate::tags::tags_view(l@),
            c <= x,
            count_in(lv, f@) == c + count_in(lv.skip(x as int), f@),
        decreases n - x,
    {
        proof {
            assert(lv.skip(x as int)[0] == lv[x as int]);
            assert(lv[x as int] == l@[x as int]@);
            assert(lv.skip(x as int).drop_first() =~= lv.skip(x + 1));
        }
        if l[x] == *f {
            c = c + 1;
        }
        x = x + 1;
    }
    proof {
        assert(lv.skip(n as int) =~= Seq::<Seq<char>>::empty());
    }
    c
}

/// Looks up the filenames listed under `tag`.
fn tp_lookup_exec<'a>(tp: &'a Vec<(String, Vec<String>)>, tag: &String) -> (r: Option<
    &'a Vec<String>,
>)
    ensures
        (match r {
            Some(l) => crate::tags::tags_view(l@) == tp_lookup(
                crate::domain::tp_view(tp@),
                tag@,
            ),
            None => tp_lookup(crate::domain::tp_view(tp@), tag@) == Seq::<Seq<char>>::empty(),
        }),
{
    let ghost m = crate::domain::tp_view(tp@);
    let n: usize = tp.len();
    let mut k: usize = 0;
    while k < n
        invariant
            k <= n,
            n == tp@.len(),
            m == crate::domain::tp_view(tp@),
            tp_idx_from(m, tag@, 0) == tp_idx_from(m, tag@, k as int),
        decreases n - k,
    {
        if tp[k].0 == *tag {
            proof {
                assert(m[k as int].0 == tag@);
                assert(tp_idx_from(m, tag@, k as int) == k as int);
                assert(m[k as int].1 == crate::tags::tags_view(tp@[k as int].1@));
            }
            return Some(&tp[k].1);
        }
        k = k + 1;
    }
    proof {
        assert(tp_idx_from(m, tag@, n as int) == -1);
    }
    None
}

/// Computes the relatedness score of `f` against a subject's tags.
fn score_exec(tags: &Vec<String>, tp: &Vec<(String, Vec<String>)>, f: &String) -> (r: u128)
    ensures
        r as int == score_of(
            crate::tags::tags_view(tags@),
            crate::domain::tp_view(tp@),
            f@,
        ) as int,
{
    let ghost tv = crate::tags::tags_view(tags@);
    let ghost m = crate::domain::tp_view(tp@);
    let n: usize = tags.len();
    let mut acc: u128 = 0;
    let mut t: usize = 0;
    proof {
        assert(tv.skip(0) =~= tv);
    }
    while t < n
        invariant
            t <= n,
            n == tags@.len(),
            tv == crate::tags::tags_view(tags@),
            m == crate::domain::tp_view(tp@),
            acc <= (t as u128) * (usize::MAX as u128),
            score_of(tv, m, f@) as int == acc + score_of(tv.skip(t as int), m, f@),
        decreases n - t,
    {
        let cnt: usize = match tp_lookup_exec(tp, &tags[t]) {
            Some(l) => count_occurrences(l, f),
            None => 0,
        };
        proof {
            assert(tv.skip(t as int)[0] == tv[t as int]);
            assert(tv[t as int] == tags@[t as int]@);
            assert(tv.skip(t as int).drop_first() =~= tv.skip(t + 1));
            assert(cnt as int == count_in(tp_lookup(m, tv[t as int]), f@));
            assert((t as int + 1) * (usize::MAX as int) == t as int * (usize::MAX as int)
                + usize::MAX as int) by (nonlinear_arith);
            assert((n as u128) * (usize::MAX as u128) <= (u128::MAX - usize::MAX) as u128)
                by (nonlinear_arith)
                requires
                    n <= usize::MAX,
            ;
        }
        acc = acc + (cnt as u128);
        t = t + 1;
    }
    proof {
        assert(tv.skip(n as int) =~= Seq::<Seq<char>>::empty());
    }
    acc
}

/// Looks up a post's title, empty when the filename is not in the table.
fn title_of(posts: &Vec<(String, Content)>, f: &String) -> (r: String)
    ensures
        r@ == lookup_title(posts_view(posts@), f@),
{
    let ghost m = posts_view(posts@);
    let n: usize = posts.len();
    let mut k: usize = 0;
    while k < n
        invariant
            k <= n,
            n == posts@.len(),
            m == posts_view(posts@),
            posts_idx_from(m, f@, 0) == posts_idx_from(m, f@, k as int),
        decreases n - k,
    {
        if posts[k].0 == *f {
            proof {
                assert(m[k as int].0 == f@);
                assert(posts_idx_from(m, f@, k as int) == k as int);
                assert(m[k as int].1 == posts@[k as int].1@);
            }
            return posts[k].1.title.clone();
        }
        k = k + 1;
    }
    proof {
        assert(posts_idx_from(m, f@, n as int) == -1);
    }
    String::new()
}

/// Clones a tag list.
fn clone_strings(v: &Vec<String>) -> (r: Vec<String>)
    ensures
        r@ == v@,
{
    let n: usize = v.len();
    let mut out: Vec<String> = Vec::new();
    let mut k: usize = 0;
    while k < n
        invariant
            k <= n,
            n == v@.len(),
            out@ =~= v@.take(k as int),
        decreases n - k,
    {
        out.push(v[k].clone());
        proof {
            assert(out@ =~= v@.take(k + 1));
        }
        k = k + 1;
    }
    proof {
        assert(v@.take(n as int) =~= v@);
    }
    out
}

/// Builds one related link.
fn rel_link_str(base: &str, f: &str, title: &str) -> (r: String)
    ensures
        r@ == rel_link(base@, f@, title@),
{
    let mut url: String = base.to_owned();
    url.append("/posts/");
    url.append(f);
    url.append(".html");
    let mut l: String = "<a href=\"".to_owned();
    l.append(url.as_str());
    l.append("\">");
    l.append(title);
    l.append("</a>");
    l
}

/// Enriches every post of the table with its related-posts links: candidates
/// share at least one tag, score one per shared tag occurrence, are ordered
/// by descending score with ties in table order, and are cut to three.
pub fn get_posts_with_related(post_maps: &PostMaps, base_site_url: &str) -> (r: Vec<Content>)
    ensures
        contents_view(r@) == related_of(post_maps@, base_site_url@),
{
    let ghost pm = post_maps@;
    let n: usize = post_maps.posts.len();
    let mut out: Vec<Content> = Vec::new();
    let mut i: usize = 0;
    while i < n
        invariant
            i <= n,
            n == post_maps@.posts.len(),
            pm == post_maps@,
            n == post_maps.posts@.len(),
            out@.len() == i,
            forall|k: int| 0 <= k < i ==> #[trigger] contents_view(out@)[k] == related_entry(
                pm,
                k,
                base_site_url@,
            ),
        decreases n - i,
    {
        let subject = &post_maps.posts[i].0;
        let subject_tags = &post_maps.posts[i].1.tags;
        proof {
            let ghost pi = post_maps.posts@[i as int];
            assert(pm.posts[i as int] == (pi.0@, pi.1@));
        }

        // Scored candidates, in table order.
        let mut cands: Vec<(String, u128)> = Vec::new();
        let mut j: usize = 0;
        proof {
            assert(pm.posts.skip(0) =~= pm.posts);
        }
        while j < n
            invariant
                j <= n,
                n == post_maps@.posts.len(),
                pm == post_maps@,
                n == post_maps.posts@.len(),
                subject@ == pm.posts[i as int].0,
                crate::tags::tags_view(subject_tags@) == pm.posts[i as int].1.tags,
                0 <= i < n,
                cands_of(pm.posts, pm.posts[i as int].0, pm.posts[i as int].1.tags, pm.tag_posts)
                    == cands_view(cands@) + cands_of(
                    pm.posts.skip(j as int),
                    pm.posts[i as int].0,
                    pm.posts[i as int].1.tags,
                    pm.tag_posts,
                ),
            decreases n - j,
        {
            let ghost prev = cands_view(cands@);
            let fname = &post_maps.posts[j].0;
            proof {
                assert(pm.posts.skip(j as int)[0] == pm.posts[j as int]);
                let pj = post_maps.posts@[j as int];
                assert(pm.posts[j as int] == (pj.0@, pj.1@));
                assert(pm.posts.skip(j as int).drop_first() =~= pm.posts.skip(j + 1));
            }
            let sc: u128 = score_exec(subject_tags, &post_maps.tag_posts, fname);
            let ghost tail = cands_of(
                pm.posts.skip(j + 1),
                pm.posts[i as int].0,
                pm.posts[i as int].1.tags,
                pm.tag_posts,
            );
            if !(*fname == *subject) && sc > 0 {
                cands.push((fname.clone(), sc));
                proof {
                    assert(cands_view(cands@) =~= prev.push((fname@, sc as int)));
                    assert(prev.push((fname@, sc as int)) + tail =~= prev + (seq![
                        (fname@, sc as int),
                    ] + tail));
                }
            }
            j = j + 1;
        }
        proof {
            assert(pm.posts.skip(n as int) =~= Seq::<(Seq<char>, ContentS)>::empty());
        }

        // Sort by descending score; ties keep table order.
        let ghost call = cands_view(cands@);
        let mut rest = cands;
        let mut sorted: Vec<(String, u128)> = Vec::new();
        let ghost mut sj: int = 0;
        proof {
            assert(cands_view(sorted@) =~= Seq::<(Seq<char>, int)>::empty());
            assert(call.take(0) =~= Seq::<(Seq<char>, int)>::empty());
        }
        while rest.len() > 0
            invariant
                0 <= sj <= call.len(),
                rest@.len() == call.len() - sj,
                forall|k: int| 0 <= k < rest@.len() ==> ((#[trigger] rest@[k]).0@, rest@[k].1 as int)
                    == call[sj + k],
                cands_view(sorted@) == sort_cands(call.take(sj)),
            decreases rest.len(),
        {
            let ghost pp = rest@;
            let c = rest.remove(0);
            proof {
                assert((c.0@, c.1 as int) == call[sj]) by {
                    assert((pp[0].0@, pp[0].1 as int) == call[sj + 0]);
                }
                assert(rest@ =~= pp.subrange(1, pp.len() as int));
                assert forall|k: int| 0 <= k < rest@.len() implies ((#[trigger] rest@[k]).0@,
                rest@[k].1 as int) == call[(sj + 1) + k] by {
                    assert(rest@[k] == pp[k + 1]);
                    assert((pp[k + 1].0@, pp[k + 1].1 as int) == call[sj + (k + 1)]);
                }
            }
            insert_cand_exec(&mut sorted, c);
            proof {
                assert(call.take(sj + 1).drop_last() =~= call.take(sj));
                assert(call.take(sj + 1).last() == call[sj]);
                sj = sj + 1;
            }
        }
        proof {
            assert(call.take(sj) =~= call);
        }
        let ghost sortedv = sort_cands(call);

        // The top three links.
        let sn: usize = sorted.len();
        let m: usize = if sn < 3 {
            sn
        } else {
            3
        };
        let mut links: String = String::new();
        let mut k: usize = 0;
        proof {
            assert(sortedv.take(0) =~= Seq::<(Seq<char>, int)>::empty());
        }
        while k < m
            invariant
                k <= m,
                m <= sn,
                sn == sorted@.len(),
                pm == post_maps@,
                n == post_maps.posts@.len(),
                sortedv == cands_view(sorted@),
                links@ == rel_links(sortedv.take(k as int), pm.posts, base_site_url@),
            decreases m - k,
        {
            let t = title_of(&post_maps.posts, &sorted[k].0);
            let l = rel_link_str(base_site_url, sorted[k].0.as_str(), t.as_str());
            links.append(l.as_str());
            proof {
                assert(sortedv.take(k + 1).drop_last() =~= sortedv.take(k as int));
                assert(sortedv.take(k + 1).last() == sortedv[k as int]);
                assert(sortedv[k as int] == (sorted@[k as int].0@, sorted@[k as int].1 as int));
            }
            k = k + 1;
        }
        let ghost top = if sortedv.len() <= 3 {
            sortedv
        } else {
            sortedv.take(3)
        };
        proof {
            if sortedv.len() <= 3 {
                assert(sortedv.take(m as int) =~= sortedv);
            }
            assert(links@ == rel_links(top, pm.posts, base_site_url@));
        }

        // The enriched post.
        let created = post_maps.posts[i].1.created.clone();
        let filename = post_maps.posts[i].0.clone();
        let html = replace_all(post_maps.posts[i].1.html.as_str(), "{{related}}", links.as_str());
        let tags = clone_strings(&post_maps.posts[i].1.tags);
        let title = post_maps.posts[i].1.title.clone();
        let c = Content { created, filename, html, tags, title };
        let ghost prev_out = contents_view(out@);
        out.push(c);
        proof {
            assert(c@ =~~= related_entry(pm, i as int, base_site_url@));
            assert(contents_view(out@) =~= prev_out.push(c@));
        }
        i = i + 1;
    }
    proof {
        assert(contents_view(out@) =~= related_of(pm, base_site_url@));
    }
    out
}

} // verus!
