//! Character-level text utilities shared by the converter and the page
//! builders: word counting, substring search, and literal replacement.

use vstd::prelude::*;

verus! {

/// Whether `c` is a word character: the regex crate's `\w` class, which
/// covers Unicode letters, digits, marks, connector punctuation (including
/// the underscore) and join controls.
pub uninterp spec fn is_word_char(c: char) -> bool;

/// Relies on the regex crate's `\w` character class: whether each character
/// of `s` is a word character. Class membership is a deterministic function
/// of the character alone.
#[verifier::external_body]
fn word_flags(s: &str) -> (r: Vec<bool>)
    ensures
        r@.len() == s@.len(),
        forall|i: int| 0 <= i < s@.len() ==> r@[i] == is_word_char(s@[i]),
{
    let word = regex::Regex::new(r"\w").unwrap();
    s.chars().map(
        |c: char|
            {
                let mut buf = [0u8; 4];
                word.is_match(c.encode_utf8(&mut buf))
            },
    ).collect()
}

/// The number of maximal runs of word characters in `s`, counted as the
/// number of positions that start such a run.
pub open spec fn word_run_count(s: Seq<char>) -> nat
    decreases s.len(),
{
    if s.len() == 0 {
        0
    } else {
        word_run_count(s.drop_last()) + if is_word_char(s.last()) && (s.len() == 1
            || !is_word_char(s[s.len() - 2])) {
            1nat
        } else {
            0nat
        }
    }
}

/// Counts the maximal word-character runs of `s`.
pub fn count_word_runs(s: &str) -> (r: usize)
    ensures
        r == word_run_count(s@),
{
    let flags = word_flags(s);
    let n: usize = flags.len();
    let mut count: usize = 0;
    let mut i: usize = 0;
    let mut prev_word: bool = false;
    while i < n
        invariant
            i <= n,
            n == s@.len(),
            flags@.len() == s@.len(),
            forall|k: int| 0 <= k < s@.len() ==> flags@[k] == is_word_char(s@[k]),
            count == word_run_count(s@.take(i as int)),
            count <= i,
            prev_word == (i > 0 && is_word_char(s@[i - 1])),
        decreases n - i,
    {
        let w = flags[i];
        if w && !prev_word {
            count = count + 1;
        }
        proof {
            assert(s@.take(i + 1).drop_last() =~= s@.take(i as int));
            assert(s@.take(i + 1).last() == s@[i as int]);
        }
        prev_word = w;
        i = i + 1;
    }
    proof {
        assert(s@.take(n as int) =~= s@);
    }
    count
}

/// `pat` occurs in `s` at position `i`.
pub open spec fn contains_at(s: Seq<char>, i: int, pat: Seq<char>) -> bool {
    0 <= i && i + pat.len() <= s.len() && s.subrange(i, i + pat.len()) == pat
}

/// The first position `>= from` where `pat` occurs in `s`, or -1 if there is none.
pub open spec fn find_spec(s: Seq<char>, pat: Seq<char>, from: int) -> int
    decreases s.len() - from + 1,
{
    if from < 0 {
        find_spec(s, pat, 0)
    } else if from + pat.len() > s.len() {
        -1
    } else if contains_at(s, from, pat) {
        from
    } else {
        find_spec(s, pat, from + 1)
    }
}

/// `s`, with every occurrence of `pat`, leftmost first and without overlap,
/// replaced by `to`; replacement text is never scanned again.
pub open spec fn replace_spec(s: Seq<char>, pat: Seq<char>, to: Seq<char>) -> Seq<char>
    decreases s.len(),
{
    if pat.len() == 0 {
        s
    } else {
        let i = find_spec(s, pat, 0);
        if 0 <= i && i + pat.len() <= s.len() {
            s.subrange(0, i) + to + replace_spec(
                s.subrange(i + pat.len(), s.len() as int),
                pat,
                to,
            )
        } else {
            s
        }
    }
}

/// Whether `pat` occurs in `s` at position `i`.
pub fn starts_at(s: &str, i: usize, pat: &str) -> (r: bool)
    ensures
        r == contains_at(s@, i as int, pat@),
{
    let n: usize = s.unicode_len();
    let m: usize = pat.unicode_len();
    if i > n || m > n - i {
        return false;
    }
    let mut j: usize = 0;
    while j < m
        invariant
            j <= m,
            i + m <= n,
            n == s@.len(),
            m == pat@.len(),
            forall|k: int| 0 <= k < j ==> s@[i + k] == pat@[k],
        decreases m - j,
    {
        if s.get_char(i + j) != pat.get_char(j) {
            proof {
                assert(s@.subrange(i as int, i + m) != pat@) by {
                    assert(s@.subrange(i as int, i + m)[j as int] != pat@[j as int]);
                }
            }
            return false;
        }
        j = j + 1;
    }
    proof {
        assert(s@.subrange(i as int, i + m) =~= pat@);
    }
    true
}

/// The first position `>= start` where `pat` occurs in `s`.
pub fn find_from(s: &str, start: usize, pat: &str) -> (r: Option<usize>)
    ensures
        (match r {
            Some(i) => find_spec(s@, pat@, start as int) == i as int && contains_at(
                s@,
                i as int,
                pat@,
            ) && i >= start,
            None => find_spec(s@, pat@, start as int) == -1,
        }),
{
    let n: usize = s.unicode_len();
    let m: usize = pat.unicode_len();
    if start > n || m > n - start {
        return None;
    }
    if m == 0 {
        proof {
            assert(s@.subrange(start as int, start as int) =~= pat@);
        }
        return Some(start);
    }
    let mut i: usize = start;
    while i <= n - m
        invariant
            start <= i,
            i + m <= n + 1,
            1 <= m <= n,
            n == s@.len(),
            m == pat@.len(),
            find_spec(s@, pat@, start as int) == find_spec(s@, pat@, i as int),
        decreases n - i,
    {
        if starts_at(s, i, pat) {
            return Some(i);
        }
        i = i + 1;
    }
    None
}

/// `s` with every occurrence of `pat` (leftmost first, non-overlapping)
/// replaced by `to`. Text inserted by a replacement is not scanned again.
pub fn replace_all(s: &str, pat: &str, to: &str) -> (r: String)
    ensures
        r@ == replace_spec(s@, pat@, to@),
    decreases s@.len(),
{
    let m: usize = pat.unicode_len();
    if m == 0 {
        return s.to_owned();
    }
    match find_from(s, 0, pat) {
        None => s.to_owned(),
        Some(i) => {
            let n: usize = s.unicode_len();
            let head = s.substring_char(0, i);
            let tail = s.substring_char(i + m, n);
            let rest = replace_all(tail, pat, to);
            let mut out = head.to_owned();
            out.append(to);
            out.append(rest.as_str());
            proof {
                assert(out@ =~= replace_spec(s@, pat@, to@));
            }
            out
        },
    }
}

/// The decimal digit character for `n < 10`.
pub open spec fn dec_digit(n: nat) -> char {
    if n == 0 {
        '0'
    } else if n == 1 {
        '1'
    } else if n == 2 {
        '2'
    } else if n == 3 {
        '3'
    } else if n == 4 {
        '4'
    } else if n == 5 {
        '5'
    } else if n == 6 {
        '6'
    } else if n == 7 {
        '7'
    } else if n == 8 {
        '8'
    } else {
        '9'
    }
}

/// The decimal rendering of `n`, without sign or padding.
pub open spec fn dec_str(n: nat) -> Seq<char>
    decreases n,
{
    if n < 10 {
        seq![dec_digit(n)]
    } else {
        dec_str(n / 10) + seq![dec_digit(n % 10)]
    }
}

fn digit_str(d: usize) -> (r: &'static str)
    requires
        d < 10,
    ensures
        r@ == seq![dec_digit(d as nat)],
{
    proof {
        reveal_strlit("0");
        reveal_strlit("1");
        reveal_strlit("2");
        reveal_strlit("3");
        reveal_strlit("4");
        reveal_strlit("5");
        reveal_strlit("6");
        reveal_strlit("7");
        reveal_strlit("8");
        reveal_strlit("9");
    }
    let r = match d {
        0 => "0",
        1 => "1",
        2 => "2",
        3 => "3",
        4 => "4",
        5 => "5",
        6 => "6",
        7 => "7",
        8 => "8",
        _ => "9",
    };
    proof {
        assert(r@ =~= seq![dec_digit(d as nat)]);
    }
    r
}

/// Renders `n` in decimal.
pub fn to_dec(n: usize) -> (r: String)
    ensures
        r@ == dec_str(n as nat),
    decreases n,
{
    if n < 10 {
        digit_str(n).to_owned()
    } else {
        let mut out = to_dec(n / 10);
        out.append(digit_str(n % 10));
        proof {
            assert(out@ =~= dec_str(n as nat));
        }
        out
    }
}

} // verus!
