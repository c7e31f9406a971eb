//! The markdown-to-HTML conversion engine: a single left-to-right pass over
//! the structural event stream that extracts the document title, buffers
//! fenced code blocks for syntax highlighting, turns footnote definitions
//! into inline sidenotes at the point of reference, counts images, and
//! rewrites links to open in a new tab.

use vstd::prelude::*;
use crate::events::{
    parse_events, render_events, events_of, evs_view, html_of, Ev, EvS, MdTag, MdTagS,
};
use crate::highlight::{highlight_of, Highlighter};
use crate::text::{
    count_word_runs, replace_all, replace_spec, word_run_count,
};

verus! {

/// The result of converting one markdown document.
pub struct Conversion {
    pub html: String,
    pub image_count: usize,
    pub title: String,
    pub word_count: usize,
}

/// The converter's state after some prefix of the event stream.
#[verifier::ext_equal]
pub struct ConvState {
    /// The concatenated text runs of the first level-1 heading.
    pub title: Seq<char>,
    /// Whether the first level-1 heading has already closed.
    pub title_done: bool,
    /// The output event stream.
    pub out: Seq<EvS>,
    /// Whether the pass is inside a level-1 heading.
    pub in_h1: bool,
    /// The fence language while inside a code block.
    pub code_lang: Option<Seq<char>>,
    /// The accumulated code block text.
    pub code: Seq<char>,
    /// The footnote label while inside a footnote definition.
    pub foot_id: Option<Seq<char>>,
    /// The accumulated sidenote HTML of the open footnote definition.
    pub sidenote: Seq<char>,
    /// Footnote label to sidenote HTML, in order of first definition.
    pub notes: Seq<(Seq<char>, Seq<char>)>,
    /// Number of images seen, in any context.
    pub image_count: nat,
}

pub open spec fn st_of(
    title: Seq<char>,
    title_done: bool,
    out: Seq<EvS>,
    in_h1: bool,
    code_lang: Option<Seq<char>>,
    code: Seq<char>,
    foot_id: Option<Seq<char>>,
    sidenote: Seq<char>,
    notes: Seq<(Seq<char>, Seq<char>)>,
    image_count: nat,
) -> ConvState {
    ConvState {
        title,
        title_done,
        out,
        in_h1,
        code_lang,
        code,
        foot_id,
        sidenote,
        notes,
        image_count,
    }
}

/// The model of an optional owned string.
pub open spec fn opt_view(o: Option<String>) -> Option<Seq<char>> {
    match o {
        Some(s) => Some(s@),
        None => None,
    }
}

/// The model of a footnote table.
pub open spec fn notes_view(s: Seq<(String, String)>) -> Seq<(Seq<char>, Seq<char>)> {
    Seq::new(s.len(), |i: int| (s[i].0@, s[i].1@))
}

/// The first position `>= from` of label `id` in `notes`, or -1.
pub open spec fn note_idx_from(
    notes: Seq<(Seq<char>, Seq<char>)>,
    id: Seq<char>,
    from: int,
) -> int
    decreases notes.len() - from + 1,
{
    if from < 0 {
        note_idx_from(notes, id, 0)
    } else if from >= notes.len() {
        -1
    } else if notes[from].0 == id {
        from
    } else {
        note_idx_from(notes, id, from + 1)
    }
}

/// `notes` with the entry for `id` set to `val`: in place if the label is
/// already present, appended otherwise.
pub open spec fn upsert(
    notes: Seq<(Seq<char>, Seq<char>)>,
    id: Seq<char>,
    val: Seq<char>,
) -> Seq<(Seq<char>, Seq<char>)> {
    let k = note_idx_from(notes, id, 0);
    if 0 <= k < notes.len() {
        notes.update(k, (id, val))
    } else {
        notes.push((id, val))
    }
}

/// The placeholder token emitted at a footnote reference.
pub open spec fn note_token(id: Seq<char>) -> Seq<char> {
    "{{"@ + id + " footnote}}"@
}

/// One step of the conversion pass. Inside a level-1 heading every event is
/// suppressed: the text runs of the first such heading are gathered into the
/// title (code-block capture taking precedence), images are still counted,
/// and nothing reaches the output stream until the heading closes.
pub open spec fn conv_step(st: ConvState, e: EvS) -> ConvState {
    if st.in_h1 {
        match e {
            EvS::End(MdTagS::Heading(l)) => if l == 1 {
                ConvState { in_h1: false, title_done: true, ..st }
            } else {
                st
            },
            EvS::Text(t) => if st.code_lang is Some {
                ConvState { code: st.code + t, ..st }
            } else if !st.title_done {
                ConvState { title: st.title + t, ..st }
            } else {
                st
            },
            EvS::Start(MdTagS::Image(_u, _t)) => ConvState {
                image_count: st.image_count + 1,
                ..st
            },
            _ => st,
        }
    } else {
        conv_step_outside(st, e)
    }
}

/// One step of the conversion pass outside a level-1 heading.
pub open spec fn conv_step_outside(st: ConvState, e: EvS) -> ConvState {
    match e {
        EvS::Start(t) => match t {
            MdTagS::Heading(l) => if l == 1 {
                ConvState { in_h1: true, ..st }
            } else {
                ConvState { out: st.out.push(e), ..st }
            },
            MdTagS::CodeBlock(lang) => ConvState { code_lang: Some(lang), ..st },
            MdTagS::FootnoteDefinition(id) => ConvState { foot_id: Some(id), ..st },
            MdTagS::Image(url, _t) => {
                let st2 = ConvState { image_count: st.image_count + 1, ..st };
                match st2.foot_id {
                    Some(_) => ConvState {
                        sidenote: st2.sidenote + "<img src=\""@ + url + "\" />"@,
                        ..st2
                    },
                    None => ConvState { out: st2.out.push(e), ..st2 },
                }
            },
            MdTagS::Link(url, _t) => {
                let link = "<a href=\""@ + url + "\" target=\"_blank\">"@;
                match st.foot_id {
                    Some(_) => ConvState { sidenote: st.sidenote + link, ..st },
                    None => ConvState { out: st.out.push(EvS::Html(link)), ..st },
                }
            },
            _ => ConvState { out: st.out.push(e), ..st },
        },
        EvS::End(t) => match t {
            MdTagS::Heading(l) => if l == 1 {
                ConvState { in_h1: false, ..st }
            } else {
                ConvState { out: st.out.push(e), ..st }
            },
            MdTagS::CodeBlock(_lang) => {
                let out2 = match st.code_lang {
                    Some(lang) => st.out.push(EvS::Html(highlight_of(lang, st.code))),
                    None => st.out,
                };
                ConvState { out: out2, code: Seq::empty(), code_lang: None, ..st }
            },
            MdTagS::FootnoteDefinition(_id) => {
                let notes2 = match st.foot_id {
                    Some(id) => upsert(st.notes, id, st.sidenote),
                    None => st.notes,
                };
                ConvState { notes: notes2, foot_id: None, sidenote: Seq::empty(), ..st }
            },
            MdTagS::Image(_u, _t) => st,
            MdTagS::Link(_u, _t) => match st.foot_id {
                Some(_) => ConvState { sidenote: st.sidenote + "</a>"@, ..st },
                None => ConvState { out: st.out.push(EvS::Html("</a>"@)), ..st },
            },
            _ => ConvState { out: st.out.push(e), ..st },
        },
        EvS::Text(t) => {
            if st.code_lang is Some {
                ConvState { code: st.code + t, ..st }
            } else {
                match st.foot_id {
                    Some(id) => ConvState {
                        notes: upsert(st.notes, id, t),
                        sidenote: st.sidenote + t,
                        ..st
                    },
                    None => ConvState { out: st.out.push(e), ..st },
                }
            }
        },
        EvS::Code(c) => match st.foot_id {
            Some(_) => ConvState {
                sidenote: st.sidenote + "<code>"@ + c + "</code>"@,
                ..st
            },
            None => ConvState { out: st.out.push(e), ..st },
        },
        EvS::FootnoteReference(id) => ConvState {
            out: st.out.push(EvS::Html(note_token(id))),
            ..st
        },
        _ => ConvState { out: st.out.push(e), ..st },
    }
}

/// The state before any event.
pub open spec fn conv_init() -> ConvState {
    ConvState {
        title: Seq::empty(),
        title_done: false,
        out: Seq::empty(),
        in_h1: false,
        code_lang: None,
        code: Seq::empty(),
        foot_id: None,
        sidenote: Seq::empty(),
        notes: Seq::empty(),
        image_count: 0,
    }
}

/// The state after a whole event stream.
pub open spec fn conv_fold(evs: Seq<EvS>) -> ConvState
    decreases evs.len(),
{
    if evs.len() == 0 {
        conv_init()
    } else {
        conv_step(conv_fold(evs.drop_last()), evs.last())
    }
}

/// A decimal digit.
pub open spec fn is_digit(c: char) -> bool {
    '0' <= c && c <= '9'
}

/// Every character of `s` is a decimal digit.
pub open spec fn all_digits(s: Seq<char>) -> bool {
    forall|i: int| 0 <= i < s.len() ==> is_digit(#[trigger] s[i])
}

/// `s` without one leading sign, if any.
pub open spec fn strip_sign(s: Seq<char>) -> Seq<char> {
    if s.len() > 0 && (s[0] == '+' || s[0] == '-') {
        s.drop_first()
    } else {
        s
    }
}

/// The first position `>= from` holding `a` or `b`, or -1.
pub open spec fn first_of(s: Seq<char>, a: char, b: char, from: int) -> int
    decreases s.len() - from + 1,
{
    if from < 0 {
        first_of(s, a, b, 0)
    } else if from >= s.len() {
        -1
    } else if s[from] == a || s[from] == b {
        from
    } else {
        first_of(s, a, b, from + 1)
    }
}

/// `s` spells "inf", in any letter case.
pub open spec fn ci_inf(s: Seq<char>) -> bool {
    s.len() == 3 && (s[0] == 'i' || s[0] == 'I') && (s[1] == 'n' || s[1] == 'N') && (s[2] == 'f'
        || s[2] == 'F')
}

/// `s` spells "infinity", in any letter case.
pub open spec fn ci_infinity(s: Seq<char>) -> bool {
    s.len() == 8 && (s[0] == 'i' || s[0] == 'I') && (s[1] == 'n' || s[1] == 'N') && (s[2] == 'f'
        || s[2] == 'F') && (s[3] == 'i' || s[3] == 'I') && (s[4] == 'n' || s[4] == 'N') && (s[5]
        == 'i' || s[5] == 'I') && (s[6] == 't' || s[6] == 'T') && (s[7] == 'y' || s[7] == 'Y')
}

/// `s` spells "nan", in any letter case.
pub open spec fn ci_nan(s: Seq<char>) -> bool {
    s.len() == 3 && (s[0] == 'n' || s[0] == 'N') && (s[1] == 'a' || s[1] == 'A') && (s[2] == 'n'
        || s[2] == 'N')
}

/// A mantissa: digits with at most one point, and at least one digit.
pub open spec fn is_mantissa(m: Seq<char>) -> bool {
    let d = first_of(m, '.', '.', 0);
    if d < 0 {
        m.len() > 0 && all_digits(m)
    } else {
        m.len() > 1 && all_digits(m.subrange(0, d)) && all_digits(
            m.subrange(d + 1, m.len() as int),
        )
    }
}

/// An exponent part: an optional sign and at least one digit.
pub open spec fn is_exponent(x: Seq<char>) -> bool {
    let b = strip_sign(x);
    b.len() > 0 && all_digits(b)
}

/// After the optional sign, a decimal literal with an optional exponent.
pub open spec fn is_float_lit(b: Seq<char>) -> bool {
    let e = first_of(b, 'e', 'E', 0);
    if e < 0 {
        is_mantissa(b)
    } else {
        is_mantissa(b.subrange(0, e)) && is_exponent(b.subrange(e + 1, b.len() as int))
    }
}

/// A footnote label that is marked with a numeral: one that spells a decimal
/// floating-point number — an optional sign, then "inf", "infinity" or "nan"
/// in any case, or digits with an optional point and exponent.
pub open spec fn numeric_id(s: Seq<char>) -> bool {
    let b = strip_sign(s);
    ci_inf(b) || ci_infinity(b) || ci_nan(b) || is_float_lit(b)
}

/// The `<sup>` marker for a footnote label; empty for a non-numeric label.
pub open spec fn sup_of(id: Seq<char>) -> Seq<char> {
    if numeric_id(id) {
        "<sup>"@ + id + "</sup>"@
    } else {
        Seq::empty()
    }
}

/// The sidenote HTML substituted for a footnote placeholder.
pub open spec fn sidenote_of(id: Seq<char>, content: Seq<char>) -> Seq<char> {
    sup_of(id) + "<span class=\"sidenote\">"@ + sup_of(id) + content + "</span>"@
}

/// `html` with every footnote placeholder replaced by its sidenote, in order
/// of first definition.
pub open spec fn subst_notes(html: Seq<char>, notes: Seq<(Seq<char>, Seq<char>)>) -> Seq<char>
    decreases notes.len(),
{
    if notes.len() == 0 {
        html
    } else {
        subst_notes(
            replace_spec(html, note_token(notes[0].0), sidenote_of(notes[0].0, notes[0].1)),
            notes.drop_first(),
        )
    }
}

/// The title that `convert` extracts from a document: the concatenated text
/// runs of the first level-1 heading, empty when there is none.
pub open spec fn conv_title(md: Seq<char>) -> Seq<char> {
    conv_fold(events_of(md)).title
}

/// The number of images that `convert` counts in a document.
pub open spec fn conv_images(md: Seq<char>) -> nat {
    conv_fold(events_of(md)).image_count
}

/// The HTML that `convert` produces for a document.
pub open spec fn conv_html(md: Seq<char>) -> Seq<char> {
    let st = conv_fold(events_of(md));
    subst_notes(html_of(st.out), st.notes)
}

/// The code buffer is empty whenever no code block is open; so a block's
/// buffer holds exactly the block's own text.
pub proof fn lemma_code_clear(evs: Seq<EvS>)
    ensures
        conv_fold(evs).code_lang is None ==> conv_fold(evs).code == Seq::<char>::empty(),
    decreases evs.len(),
{
    if evs.len() > 0 {
        lemma_code_clear(evs.drop_last());
    }
}

/// A fenced code block met outside a level-1 heading and outside another
/// block becomes exactly the highlighter's output in the output stream,
/// whatever state surrounds it; nothing else of the state changes. This
/// holds for every language tag: an unrecognized or absent tag still yields
/// the (plain-text) highlight result, never an error.
pub proof fn lemma_code_block_highlighted(
    st: ConvState,
    lang: Seq<char>,
    body: Seq<char>,
    close_tag: Seq<char>,
)
    requires
        !st.in_h1,
        st.code_lang is None,
        st.code == Seq::<char>::empty(),
    ensures
        conv_step(
            conv_step(conv_step(st, EvS::Start(MdTagS::CodeBlock(lang))), EvS::Text(body)),
            EvS::End(MdTagS::CodeBlock(close_tag)),
        ) == (ConvState { out: st.out.push(EvS::Html(highlight_of(lang, body))), ..st }),
{
    let st1 = conv_step(st, EvS::Start(MdTagS::CodeBlock(lang)));
    let st2 = conv_step(st1, EvS::Text(body));
    assert(st2.code =~= body);
    let st3 = conv_step(st2, EvS::End(MdTagS::CodeBlock(close_tag)));
    assert(st3 =~~= (ConvState {
        out: st.out.push(EvS::Html(highlight_of(lang, body))),
        ..st
    }));
}

/// A document with no level-1 heading keeps an empty title: if no event of
/// the stream starts a level-1 heading, the conversion pass never enters one
/// and its title stays empty.
pub proof fn lemma_no_h1_no_title(evs: Seq<EvS>)
    requires
        forall|i: int| 0 <= i < evs.len() ==> evs[i] != EvS::Start(MdTagS::Heading(1)),
    ensures
        conv_fold(evs).title == Seq::<char>::empty(),
        !conv_fold(evs).in_h1,
    decreases evs.len(),
{
    if evs.len() > 0 {
        let d = evs.drop_last();
        assert forall|i: int| 0 <= i < d.len() implies d[i] != EvS::Start(MdTagS::Heading(1)) by {
            assert(d[i] == evs[i]);
        }
        lemma_no_h1_no_title(d);
        assert(evs.last() != EvS::Start(MdTagS::Heading(1)));
    }
}

/// The level-1 heading is suppressed from the output stream entirely: no
/// event that starts a level-1 heading is ever forwarded, whatever the
/// input stream holds.
pub proof fn lemma_title_heading_suppressed(evs: Seq<EvS>)
    ensures
        forall|k: int| 0 <= k < conv_fold(evs).out.len() ==> #[trigger] conv_fold(evs).out[k]
            != EvS::Start(MdTagS::Heading(1)),
    decreases evs.len(),
{
    if evs.len() > 0 {
        let d = evs.drop_last();
        lemma_title_heading_suppressed(d);
        let st = conv_fold(d);
        let st2 = conv_step(st, evs.last());
        assert forall|k: int| 0 <= k < st2.out.len() implies #[trigger] st2.out[k] != EvS::Start(
            MdTagS::Heading(1),
        ) by {
            if k < st.out.len() {
                assert(st2.out[k] == st.out[k]);
            }
        }
    }
}

pub broadcast proof fn lemma_evs_view_push(s: Seq<Ev>, e: Ev)
    ensures
        #[trigger] evs_view(s.push(e)) == evs_view(s).push(e@),
{
    assert(evs_view(s.push(e)) =~= evs_view(s).push(e@));
}

proof fn lemma_fold_step(s: Seq<EvS>, j: int)
    requires
        0 <= j < s.len(),
    ensures
        conv_fold(s.take(j + 1)) == conv_step(conv_fold(s.take(j)), s[j]),
{
    assert(s.take(j + 1).drop_last() =~= s.take(j));
    assert(s.take(j + 1).last() == s[j]);
}

/// Stores `val` under the label `id`, replacing an earlier entry with that
/// label and appending otherwise.
fn upsert_note(notes: &mut Vec<(String, String)>, id: &String, val: &String)
    ensures
        notes_view(final(notes)@) == upsert(notes_view(old(notes)@), id@, val@),
{
    let ghost m = notes_view(notes@);
    let n: usize = notes.len();
    let mut k: usize = 0;
    while k < n
        invariant
            k <= n,
            n == notes@.len(),
            m == notes_view(notes@),
            m == notes_view(old(notes)@),
            note_idx_from(m, id@, 0) == note_idx_from(m, id@, k as int),
        decreases n - k,
    {
        if notes[k].0 == *id {
            notes.set(k, (id.clone(), val.clone()));
            proof {
                assert(m[k as int].0 == id@);
                assert(note_idx_from(m, id@, k as int) == k as int);
                assert(upsert(m, id@, val@) == m.update(k as int, (id@, val@)));
                assert(notes_view(notes@) =~~= m.update(k as int, (id@, val@)));
            }
            return ;
        }
        k = k + 1;
    }
    notes.push((id.clone(), val.clone()));
    proof {
        assert(note_idx_from(m, id@, n as int) == -1);
        assert(upsert(m, id@, val@) == m.push((id@, val@)));
        assert(notes_view(notes@) =~~= m.push((id@, val@)));
    }
}

/// Converts one markdown document. Never fails: malformed input degrades to
/// best-effort output.
pub fn convert(markdown: &str, hl: &Highlighter) -> (r: Conversion)
    ensures
        r.html@ == conv_html(markdown@),
        r.title@ == conv_title(markdown@),
        r.word_count == word_run_count(markdown@),
        r.image_count == conv_images(markdown@),
{
    broadcast use lemma_evs_view_push;

    let word_count = count_word_runs(markdown);
    let mut parsed: Vec<Ev> = parse_events(markdown);
    let ghost sevs: Seq<EvS> = events_of(markdown@);
    let np: usize = parsed.len();
    proof {
        assert(evs_view(parsed@) == sevs);
        assert(sevs.len() == np);
        assert forall|k: int| 0 <= k < parsed@.len() implies #[trigger] parsed@[k]@ == sevs[k] by {
            assert(evs_view(parsed@)[k] == parsed@[k]@);
        }
    }

    let mut title: String = String::new();
    let mut title_done: bool = false;
    let mut out: Vec<Ev> = Vec::new();
    let mut in_h1: bool = false;
    let mut code_lang: Option<String> = None;
    let mut code: String = String::new();
    let mut foot_id: Option<String> = None;
    let mut sidenote: String = String::new();
    let mut notes: Vec<(String, String)> = Vec::new();
    let mut image_count: usize = 0;
    let ghost mut j: int = 0;

    while parsed.len() > 0
        invariant
            0 <= j <= sevs.len(),
            sevs.len() <= usize::MAX,
            parsed@.len() == sevs.len() - j,
            forall|k: int| 0 <= k < parsed@.len() ==> #[trigger] parsed@[k]@ == sevs[j + k],
            image_count <= j,
            (st_of(
                title@,
                title_done,
                evs_view(out@),
                in_h1,
                opt_view(code_lang),
                code@,
                opt_view(foot_id),
                sidenote@,
                notes_view(notes@),
                image_count as nat,
            ) == conv_fold(sevs.take(j))),
        decreases parsed.len(),
    {
        broadcast use lemma_evs_view_push;

        let ghost pre = st_of(
            title@,
            title_done,
            evs_view(out@),
            in_h1,
            opt_view(code_lang),
            code@,
            opt_view(foot_id),
            sidenote@,
            notes_view(notes@),
            image_count as nat,
        );
        let ghost pp = parsed@;
        let ev = parsed.remove(0);
        proof {
            assert(0 <= j < sevs.len());
            assert(ev@ == sevs[j]) by {
                assert(pp[0]@ == sevs[j + 0]);
            }
            assert(parsed@ =~= pp.subrange(1, pp.len() as int));
            assert forall|k: int| 0 <= k < parsed@.len() implies #[trigger] parsed@[k]@ == sevs[(j
                + 1) + k] by {
                assert(parsed@[k] == pp[k + 1]);
                assert(pp[k + 1]@ == sevs[j + (k + 1)]);
            }
        }
        if in_h1 {
            match ev {
                Ev::End(MdTag::Heading(l)) => {
                    if l == 1 {
                        in_h1 = false;
                        title_done = true;
                    }
                },
                Ev::Text(t) => {
                    if code_lang.is_some() {
                        code.append(t.as_str());
                    } else if !title_done {
                        title.append(t.as_str());
                    }
                },
                Ev::Start(MdTag::Image(_u, _t2)) => {
                    image_count = image_count + 1;
                },
                _ => {},
            }
        } else {
            match ev {
            Ev::Start(t) => match t {
                MdTag::Heading(l) => {
                    if l == 1 {
                        in_h1 = true;
                    } else {
                        out.push(Ev::Start(MdTag::Heading(l)));
                    }
                },
                MdTag::CodeBlock(lang) => {
                    code_lang = Some(lang);
                },
                MdTag::FootnoteDefinition(id) => {
                    foot_id = Some(id);
                },
                MdTag::Image(url, t2) => {
                    image_count = image_count + 1;
                    if foot_id.is_some() {
                        sidenote.append("<img src=\"");
                        sidenote.append(url.as_str());
                        sidenote.append("\" />");
                    } else {
                        out.push(Ev::Start(MdTag::Image(url, t2)));
                    }
                },
                MdTag::Link(url, _t2) => {
                    let mut link: String = "<a href=\"".to_owned();
                    link.append(url.as_str());
                    link.append("\" target=\"_blank\">");
                    if foot_id.is_some() {
                        sidenote.append(link.as_str());
                    } else {
                        out.push(Ev::Html(link));
                    }
                },
                t2 => {
                    out.push(Ev::Start(t2));
                },
            },
            Ev::End(t) => match t {
                MdTag::Heading(l) => {
                    if l == 1 {
                        in_h1 = false;
                    } else {
                        out.push(Ev::End(MdTag::Heading(l)));
                    }
                },
                MdTag::CodeBlock(_lang) => {
                    match &code_lang {
                        Some(language) => {
                            let h = hl.highlight(language.as_str(), code.as_str());
                            out.push(Ev::Html(h));
                        },
                        None => {},
                    }
                    code = String::new();
                    code_lang = None;
                },
                MdTag::FootnoteDefinition(_id) => {
                    match &foot_id {
                        Some(id) => {
                            upsert_note(&mut notes, id, &sidenote);
                        },
                        None => {},
                    }
                    foot_id = None;
                    sidenote = String::new();
                },
                MdTag::Image(_u, _t2) => {},
                MdTag::Link(_u, _t2) => {
                    if foot_id.is_some() {
                        sidenote.append("</a>");
                    } else {
                        out.push(Ev::Html("</a>".to_owned()));
                    }
                },
                t2 => {
                    out.push(Ev::End(t2));
                },
            },
            Ev::Text(t) => {
                if code_lang.is_some() {
                    code.append(t.as_str());
                } else {
                    match &foot_id {
                        Some(id) => {
                            upsert_note(&mut notes, id, &t);
                            sidenote.append(t.as_str());
                        },
                        None => {
                            out.push(Ev::Text(t));
                        },
                    }
                }
            },
            Ev::Code(c) => {
                if foot_id.is_some() {
                    sidenote.append("<code>");
                    sidenote.append(c.as_str());
                    sidenote.append("</code>");
                } else {
                    out.push(Ev::Code(c));
                }
            },
            Ev::FootnoteReference(id) => {
                let mut token: String = "{{".to_owned();
                token.append(id.as_str());
                token.append(" footnote}}");
                out.push(Ev::Html(token));
            },
            e2 => {
                out.push(e2);
            },
            }
        }
        proof {
            assert(st_of(
                title@,
                title_done,
                evs_view(out@),
                in_h1,
                opt_view(code_lang),
                code@,
                opt_view(foot_id),
                sidenote@,
                notes_view(notes@),
                image_count as nat,
            ) =~~= conv_step(pre, sevs[j]));
            lemma_fold_step(sevs, j);
            j = j + 1;
        }
    }
    proof {
        assert(sevs.take(j) =~= sevs);
    }
    let ghost st = conv_fold(sevs);

    let mut html: String = render_events(out);
    let ghost notes_model = st.notes;
    proof {
        assert(notes_model.skip(0) =~= notes_model);
        assert(html@ == html_of(st.out));
    }
    let n: usize = notes.len();
    let mut i: usize = 0;
    while i < n
        invariant
            i <= n,
            n == notes@.len(),
            notes_view(notes@) == notes_model,
            subst_notes(html_of(st.out), notes_model) == subst_notes(
                html@,
                notes_model.skip(i as int),
            ),
        decreases n - i,
    {
        let token = note_token_str(notes[i].0.as_str());
        let side = sidenote_str(notes[i].0.as_str(), notes[i].1.as_str());
        html = replace_all(html.as_str(), token.as_str(), side.as_str());
        proof {
            assert(notes_model.skip(i as int).drop_first() =~= notes_model.skip(i + 1));
            assert(notes_model.skip(i as int)[0] == notes_model[i as int]);
        }
        i = i + 1;
    }
    proof {
        assert(notes_model.skip(n as int) =~= Seq::<(Seq<char>, Seq<char>)>::empty());
    }

    Conversion { html, image_count, title, word_count }
}

/// Builds the placeholder token for a footnote label.
fn note_token_str(id: &str) -> (r: String)
    ensures
        r@ == note_token(id@),
{
    let mut token: String = "{{".to_owned();
    token.append(id);
    token.append(" footnote}}");
    token
}

/// Finds the first position holding `a` or `b`.
fn find_char2(s: &str, a: char, b: char) -> (r: Option<usize>)
    ensures
        (match r {
            Some(i) => first_of(s@, a, b, 0) == i as int && i < s@.len(),
            None => first_of(s@, a, b, 0) == -1,
        }),
{
    let n: usize = s.unicode_len();
    let mut i: usize = 0;
    while i < n
        invariant
            i <= n,
            n == s@.len(),
            first_of(s@, a, b, 0) == first_of(s@, a, b, i as int),
        decreases n - i,
    {
        let c = s.get_char(i);
        if c == a || c == b {
            return Some(i);
        }
        i = i + 1;
    }
    None
}

/// Whether every character is a decimal digit.
fn all_digits_str(s: &str) -> (r: bool)
    ensures
        r == all_digits(s@),
{
    let n: usize = s.unicode_len();
    let mut i: usize = 0;
    while i < n
        invariant
            i <= n,
            n == s@.len(),
            forall|k: int| 0 <= k < i ==> is_digit(#[trigger] s@[k]),
        decreases n - i,
    {
        let c = s.get_char(i);
        if !('0' <= c && c <= '9') {
            return false;
        }
        i = i + 1;
    }
    true
}

/// Removes one leading sign, if any.
fn strip_sign_str<'a>(s: &'a str) -> (r: &'a str)
    ensures
        r@ == strip_sign(s@),
{
    let n: usize = s.unicode_len();
    if n > 0 {
        let c = s.get_char(0);
        if c == '+' || c == '-' {
            let b = s.substring_char(1, n);
            proof {
                assert(b@ =~= s@.drop_first());
            }
            return b;
        }
    }
    s
}

/// Whether `m` is a mantissa.
fn is_mantissa_str(m: &str) -> (r: bool)
    ensures
        r == is_mantissa(m@),
{
    let n: usize = m.unicode_len();
    match find_char2(m, '.', '.') {
        None => n > 0 && all_digits_str(m),
        Some(d) => {
            let before = m.substring_char(0, d);
            let after = m.substring_char(d + 1, n);
            n > 1 && all_digits_str(before) && all_digits_str(after)
        },
    }
}

/// Whether `x` is an exponent part.
fn is_exponent_str(x: &str) -> (r: bool)
    ensures
        r == is_exponent(x@),
{
    let b = strip_sign_str(x);
    let n: usize = b.unicode_len();
    n > 0 && all_digits_str(b)
}

/// Whether a footnote label spells a decimal floating-point number.
fn is_numeric_id(s: &str) -> (r: bool)
    ensures
        r == numeric_id(s@),
{
    let b = strip_sign_str(s);
    let ci = matches_inf(b) || matches_infinity(b) || matches_nan(b);
    if ci {
        return true;
    }
    let bn: usize = b.unicode_len();
    match find_char2(b, 'e', 'E') {
        None => is_mantissa_str(b),
        Some(e) => {
            let mant = b.substring_char(0, e);
            let exp = b.substring_char(e + 1, bn);
            is_mantissa_str(mant) && is_exponent_str(exp)
        },
    }
}

/// Whether `b` spells "inf", in any letter case.
fn matches_inf(b: &str) -> (r: bool)
    ensures
        r == ci_inf(b@),
{
    let m: usize = b.unicode_len();
    if m != 3 {
        return false;
    }
    let c0 = b.get_char(0);
    let c1 = b.get_char(1);
    let c2 = b.get_char(2);
    (c0 == 'i' || c0 == 'I') && (c1 == 'n' || c1 == 'N') && (c2 == 'f' || c2 == 'F')
}

/// Whether `b` spells "infinity", in any letter case.
fn matches_infinity(b: &str) -> (r: bool)
    ensures
        r == ci_infinity(b@),
{
    let m: usize = b.unicode_len();
    if m != 8 {
        return false;
    }
    let c0 = b.get_char(0);
    let c1 = b.get_char(1);
    let c2 = b.get_char(2);
    let c3 = b.get_char(3);
    let c4 = b.get_char(4);
    let c5 = b.get_char(5);
    let c6 = b.get_char(6);
    let c7 = b.get_char(7);
    (c0 == 'i' || c0 == 'I') && (c1 == 'n' || c1 == 'N') && (c2 == 'f' || c2 == 'F') && (c3 == 'i'
        || c3 == 'I') && (c4 == 'n' || c4 == 'N') && (c5 == 'i' || c5 == 'I') && (c6 == 't' || c6
        == 'T') && (c7 == 'y' || c7 == 'Y')
}

/// Whether `b` spells "nan", in any letter case.
fn matches_nan(b: &str) -> (r: bool)
    ensures
        r == ci_nan(b@),
{
    let m: usize = b.unicode_len();
    if m != 3 {
        return false;
    }
    let c0 = b.get_char(0);
    let c1 = b.get_char(1);
    let c2 = b.get_char(2);
    (c0 == 'n' || c0 == 'N') && (c1 == 'a' || c1 == 'A') && (c2 == 'n' || c2 == 'N')
}

/// Builds the `<sup>` marker for a footnote label.
fn sup_str(id: &str) -> (r: String)
    ensures
        r@ == sup_of(id@),
{
    if is_numeric_id(id) {
        let mut s: String = "<sup>".to_owned();
        s.append(id);
        s.append("</sup>");
        s
    } else {
        String::new()
    }
}

/// Builds the sidenote HTML for one footnote.
fn sidenote_str(id: &str, content: &str) -> (r: String)
    ensures
        r@ == sidenote_of(id@, content@),
{
    let sup = sup_str(id);
    let mut s: String = sup.as_str().to_owned();
    s.append("<span class=\"sidenote\">");
    s.append(sup.as_str());
    s.append(content);
    s.append("</span>");
    s
}

} // verus!
