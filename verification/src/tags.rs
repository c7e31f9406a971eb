//! The tag-declaration line: a line of the form `[tags]: # (a, b, c)`
//! anywhere in a document names the post's comma-separated tags.

use vstd::prelude::*;
use crate::text::{contains_at, find_spec, find_from, starts_at};

verus! {

/// The literal marker that opens a tag-declaration line.
pub open spec fn tag_prefix() -> Seq<char> {
    "[tags]: # ("@
}

/// The first position `>= from` holding a newline, or the length of `s`.
pub open spec fn line_end_spec(s: Seq<char>, from: int) -> int
    decreases s.len() - from + 1,
{
    if from < 0 {
        line_end_spec(s, 0)
    } else if from >= s.len() {
        s.len() as int
    } else if s[from] == '\n' {
        from
    } else {
        line_end_spec(s, from + 1)
    }
}

/// The last position in `[from, end)` holding a closing parenthesis, or -1.
pub open spec fn last_close_spec(s: Seq<char>, from: int, end: int) -> int
    decreases end - from,
{
    if end <= from {
        -1
    } else if 0 <= end - 1 < s.len() && s[end - 1] == ')' {
        end - 1
    } else {
        last_close_spec(s, from, end - 1)
    }
}

/// A tag-declaration line matches at `i`: the marker occurs there, and the
/// same line closes a nonempty parenthesized list. The list is read greedily,
/// to the last closing parenthesis on the line.
pub open spec fn tag_match_at(s: Seq<char>, i: int) -> bool {
    contains_at(s, i, tag_prefix()) && last_close_spec(s, i + 11, line_end_spec(s, i + 11)) > i
        + 11
}

/// The first position `>= from` where a tag-declaration line matches, or -1.
pub open spec fn tags_match_from(s: Seq<char>, from: int) -> int
    decreases s.len() - from + 1,
{
    if from < 0 {
        tags_match_from(s, 0)
    } else if from + 11 > s.len() {
        -1
    } else if tag_match_at(s, from) {
        from
    } else {
        tags_match_from(s, from + 1)
    }
}

/// An ASCII whitespace character, as trimmed from around a tag.
pub open spec fn is_spc(c: char) -> bool {
    c == ' ' || c == '\t' || c == '\n' || c == '\r'
}

/// `s` without leading whitespace.
pub open spec fn trim_start_spec(s: Seq<char>) -> Seq<char>
    decreases s.len(),
{
    if s.len() > 0 && is_spc(s[0]) {
        trim_start_spec(s.drop_first())
    } else {
        s
    }
}

/// `s` without trailing whitespace.
pub open spec fn trim_end_spec(s: Seq<char>) -> Seq<char>
    decreases s.len(),
{
    if s.len() > 0 && is_spc(s.last()) {
        trim_end_spec(s.drop_last())
    } else {
        s
    }
}

/// `s` without surrounding whitespace.
pub open spec fn trim_spec(s: Seq<char>) -> Seq<char> {
    trim_end_spec(trim_start_spec(s))
}

/// `s` split at commas, each piece trimmed, duplicates and empty pieces kept.
pub open spec fn split_trim_spec(s: Seq<char>) -> Seq<Seq<char>>
    decreases s.len(),
{
    let k = find_spec(s, ","@, 0);
    if 0 <= k < s.len() {
        seq![trim_spec(s.subrange(0, k))] + split_trim_spec(s.subrange(k + 1, s.len() as int))
    } else {
        seq![trim_spec(s)]
    }
}

/// The tags declared in a document: the list of the first matching
/// tag-declaration line, empty when no line matches.
pub open spec fn tags_of(md: Seq<char>) -> Seq<Seq<char>> {
    let m = tags_match_from(md, 0);
    if m < 0 {
        Seq::empty()
    } else {
        let e = line_end_spec(md, m + 11);
        let j = last_close_spec(md, m + 11, e);
        if m + 11 <= j <= md.len() {
            split_trim_spec(md.subrange(m + 11, j))
        } else {
            Seq::empty()
        }
    }
}

/// The model of a tag list.
pub open spec fn tags_view(s: Seq<String>) -> Seq<Seq<char>> {
    Seq::new(s.len(), |i: int| s[i]@)
}

/// Executable test for `is_spc`.
fn spc(c: char) -> (r: bool)
    ensures
        r == is_spc(c),
{
    c == ' ' || c == '\t' || c == '\n' || c == '\r'
}

fn trim_start_str(s: &str) -> (r: String)
    ensures
        r@ == trim_start_spec(s@),
    decreases s@.len(),
{
    let n: usize = s.unicode_len();
    if n > 0 {
        let c = s.get_char(0);
        if spc(c) {
            let rest = trim_start_str(s.substring_char(1, n));
            proof {
                assert(s@.subrange(1, n as int) =~= s@.drop_first());
            }
            return rest;
        }
    }
    s.to_owned()
}

fn trim_end_str(s: &str) -> (r: String)
    ensures
        r@ == trim_end_spec(s@),
    decreases s@.len(),
{
    let n: usize = s.unicode_len();
    if n > 0 {
        let c = s.get_char(n - 1);
        if spc(c) {
            let rest = trim_end_str(s.substring_char(0, n - 1));
            proof {
                assert(s@.subrange(0, n - 1) =~= s@.drop_last());
            }
            return rest;
        }
    }
    s.to_owned()
}

/// Removes surrounding whitespace.
pub fn trim_str(s: &str) -> (r: String)
    ensures
        r@ == trim_spec(s@),
{
    let a = trim_start_str(s);
    trim_end_str(a.as_str())
}

/// Splits at commas and trims each piece.
fn split_trim(s: &str) -> (r: Vec<String>)
    ensures
        tags_view(r@) == split_trim_spec(s@),
    decreases s@.len(),
{
    let n: usize = s.unicode_len();
    match find_from(s, 0, ",") {
        Some(k) => {
            proof {
                reveal_strlit(",");
            }
            let head = s.substring_char(0, k);
            let tail = s.substring_char(k + 1, n);
            let mut rest = split_trim(tail);
            let t = trim_str(head);
            rest.insert(0, t);
            proof {
                assert(tags_view(rest@) =~= seq![trim_spec(s@.subrange(0, k as int))]
                    + split_trim_spec(s@.subrange(k + 1, n as int)));
            }
            rest
        },
        None => {
            let t = trim_str(s);
            let mut v: Vec<String> = Vec::new();
            v.push(t);
            proof {
                assert(tags_view(v@) =~= seq![trim_spec(s@)]);
            }
            v
        },
    }
}

/// The end of the line that starts at or after `from`.
fn line_end_at(s: &str, from: usize) -> (r: usize)
    ensures
        r as int == line_end_spec(s@, from as int),
        r <= s@.len(),
{
    let n: usize = s.unicode_len();
    if from >= n {
        return n;
    }
    let mut i: usize = from;
    while i < n
        invariant
            from <= i <= n,
            n == s@.len(),
            line_end_spec(s@, from as int) == line_end_spec(s@, i as int),
        decreases n - i,
    {
        if s.get_char(i) == '\n' {
            return i;
        }
        i = i + 1;
    }
    n
}

/// The last closing parenthesis in `[from, end)`.
fn last_close_at(s: &str, from: usize, end: usize) -> (r: Option<usize>)
    requires
        end <= s@.len(),
    ensures
        (match r {
            Some(x) => last_close_spec(s@, from as int, end as int) == x as int && from <= x < end,
            None => last_close_spec(s@, from as int, end as int) == -1,
        }),
{
    if end <= from {
        return None;
    }
    let mut e: usize = end;
    while e > from
        invariant
            from <= e <= end,
            end <= s@.len(),
            last_close_spec(s@, from as int, end as int) == last_close_spec(
                s@,
                from as int,
                e as int,
            ),
        decreases e,
    {
        if s.get_char(e - 1) == ')' {
            return Some(e - 1);
        }
        e = e - 1;
    }
    None
}

/// Whether a tag-declaration line matches at `i`.
fn tag_match_exec(s: &str, i: usize) -> (r: bool)
    ensures
        r == tag_match_at(s@, i as int),
{
    let n: usize = s.unicode_len();
    if !starts_at(s, i, "[tags]: # (") {
        return false;
    }
    proof {
        reveal_strlit("[tags]: # (");
        assert(i + 11 <= n);
    }
    let e: usize = line_end_at(s, i + 11);
    match last_close_at(s, i + 11, e) {
        Some(x) => x > i + 11,
        None => false,
    }
}

/// Parses the tag-declaration line of a document: the tags of the first
/// matching line, whitespace-trimmed, in declared order, duplicates kept;
/// empty when the document has no such line.
pub fn parse_tags(markdown: &str) -> (r: Vec<String>)
    ensures
        tags_view(r@) == tags_of(markdown@),
{
    proof {
        reveal_strlit("[tags]: # (");
    }
    let n: usize = markdown.unicode_len();
    if n < 11 {
        proof {
            assert(tags_match_from(markdown@, 0) == -1);
            assert(tags_view(Seq::<String>::empty()) =~= Seq::<Seq<char>>::empty());
        }
        return Vec::new();
    }
    let mut i: usize = 0;
    while i <= n - 11
        invariant
            11 <= n,
            i <= n,
            n == markdown@.len(),
            tag_prefix().len() == 11,
            tags_match_from(markdown@, 0) == tags_match_from(markdown@, i as int),
        decreases n - i,
    {
        if tag_match_exec(markdown, i) {
            proof {
                assert(tags_match_from(markdown@, i as int) == i as int);
            }
            let e: usize = line_end_at(markdown, i + 11);
            match last_close_at(markdown, i + 11, e) {
                Some(x) => {
                    let cap = markdown.substring_char(i + 11, x);
                    let v = split_trim(cap);
                    return v;
                },
                None => {
                    proof {
                        assert(false);
                    }
                },
            }
        }
        i = i + 1;
    }
    proof {
        assert(tags_match_from(markdown@, i as int) == -1);
        assert(tags_view(Seq::<String>::empty()) =~= Seq::<Seq<char>>::empty());
    }
    Vec::new()
}

} // verus!
