//! The converter's event model: a structural markdown event stream, owned by
//! the library as plain data, produced by and rendered through pulldown-cmark
//! behind trusted wrappers.

use vstd::prelude::*;
use pulldown_cmark::{Alignment, CodeBlockKind, CowStr, Event, LinkType, Options, Parser, Tag};

verus! {

/// Column alignment of a table, as parsed from the source.
#[derive(Clone, Copy, PartialEq, Eq, Structural)]
pub enum CellAlign {
    Unaligned,
    Left,
    Center,
    Right,
}

/// A structural element that can contain other elements.
pub enum MdTag {
    Paragraph,
    /// The field is the heading level.
    Heading(u32),
    BlockQuote,
    /// The field is the fence's language tag; empty for indented or untagged blocks.
    CodeBlock(String),
    /// For an ordered list the field is the number of the first item.
    List(Option<u64>),
    Item,
    /// The field is the footnote's label.
    FootnoteDefinition(String),
    Table(Vec<CellAlign>),
    TableHead,
    TableRow,
    TableCell,
    Emphasis,
    Strong,
    Strikethrough,
    /// Destination URL and title.
    Link(String, String),
    /// Source URL and title.
    Image(String, String),
}

/// One event of the structural stream.
pub enum Ev {
    Start(MdTag),
    End(MdTag),
    Text(String),
    Code(String),
    Html(String),
    FootnoteReference(String),
    SoftBreak,
    HardBreak,
    Rule,
    TaskListMarker(bool),
}

/// Mathematical model of `MdTag`.
pub enum MdTagS {
    Paragraph,
    Heading(u32),
    BlockQuote,
    CodeBlock(Seq<char>),
    List(Option<u64>),
    Item,
    FootnoteDefinition(Seq<char>),
    Table(Seq<CellAlign>),
    TableHead,
    TableRow,
    TableCell,
    Emphasis,
    Strong,
    Strikethrough,
    Link(Seq<char>, Seq<char>),
    Image(Seq<char>, Seq<char>),
}

/// Mathematical model of `Ev`.
pub enum EvS {
    Start(MdTagS),
    End(MdTagS),
    Text(Seq<char>),
    Code(Seq<char>),
    Html(Seq<char>),
    FootnoteReference(Seq<char>),
    SoftBreak,
    HardBreak,
    Rule,
    TaskListMarker(bool),
}

impl View for MdTag {
    type V = MdTagS;

    open spec fn view(&self) -> MdTagS {
        match self {
            MdTag::Paragraph => MdTagS::Paragraph,
            MdTag::Heading(l) => MdTagS::Heading(*l),
            MdTag::BlockQuote => MdTagS::BlockQuote,
            MdTag::CodeBlock(l) => MdTagS::CodeBlock(l@),
            MdTag::List(n) => MdTagS::List(*n),
            MdTag::Item => MdTagS::Item,
            MdTag::FootnoteDefinition(s) => MdTagS::FootnoteDefinition(s@),
            MdTag::Table(a) => MdTagS::Table(a@),
            MdTag::TableHead => MdTagS::TableHead,
            MdTag::TableRow => MdTagS::TableRow,
            MdTag::TableCell => MdTagS::TableCell,
            MdTag::Emphasis => MdTagS::Emphasis,
            MdTag::Strong => MdTagS::Strong,
            MdTag::Strikethrough => MdTagS::Strikethrough,
            MdTag::Link(u, t) => MdTagS::Link(u@, t@),
            MdTag::Image(u, t) => MdTagS::Image(u@, t@),
        }
    }
}

impl View for Ev {
    type V = EvS;

    open spec fn view(&self) -> EvS {
        match self {
            Ev::Start(t) => EvS::Start(t@),
            Ev::End(t) => EvS::End(t@),
            Ev::Text(s) => EvS::Text(s@),
            Ev::Code(s) => EvS::Code(s@),
            Ev::Html(s) => EvS::Html(s@),
            Ev::FootnoteReference(s) => EvS::FootnoteReference(s@),
            Ev::SoftBreak => EvS::SoftBreak,
            Ev::HardBreak => EvS::HardBreak,
            Ev::Rule => EvS::Rule,
            Ev::TaskListMarker(b) => EvS::TaskListMarker(*b),
        }
    }
}

/// The model of a whole event vector.
pub open spec fn evs_view(s: Seq<Ev>) -> Seq<EvS> {
    Seq::new(s.len(), |i: int| s[i]@)
}

#[verifier::external_type_specification]
#[verifier::external_body]
pub struct ExEvent<'a>(Event<'a>);

#[verifier::external_type_specification]
#[verifier::external_body]
pub struct ExPdTag<'a>(Tag<'a>);

#[verifier::external_type_specification]
#[verifier::external_body]
pub struct ExCodeBlockKind<'a>(CodeBlockKind<'a>);

#[verifier::external_type_specification]
#[verifier::external_body]
pub struct ExAlignment(Alignment);

#[verifier::external_type_specification]
#[verifier::external_body]
pub struct ExCowStr<'a>(CowStr<'a>);

/// The event stream that the markdown parser produces for a document.
pub uninterp spec fn events_of(md: Seq<char>) -> Seq<EvS>;

/// The HTML that the markdown renderer produces for an event stream.
pub uninterp spec fn html_of(evs: Seq<EvS>) -> Seq<char>;

#[verifier::external_body]
fn align_of(a: &Alignment) -> CellAlign {
    match a {
        Alignment::None => CellAlign::Unaligned,
        Alignment::Left => CellAlign::Left,
        Alignment::Center => CellAlign::Center,
        Alignment::Right => CellAlign::Right,
    }
}

#[verifier::external_body]
fn lang_of(k: CodeBlockKind) -> String {
    match k {
        CodeBlockKind::Fenced(s) => s.into_string(),
        CodeBlockKind::Indented => String::new(),
    }
}

#[verifier::external_body]
fn tag_of(t: Tag) -> MdTag {
    match t {
        Tag::Paragraph => MdTag::Paragraph,
        Tag::Heading(l) => MdTag::Heading(l),
        Tag::BlockQuote => MdTag::BlockQuote,
        Tag::CodeBlock(k) => MdTag::CodeBlock(lang_of(k)),
        Tag::List(n) => MdTag::List(n),
        Tag::Item => MdTag::Item,
        Tag::FootnoteDefinition(s) => MdTag::FootnoteDefinition(s.into_string()),
        t => tag_of_rest(t),
    }
}

#[verifier::external_body]
fn tag_of_rest(t: Tag) -> MdTag {
    match t {
        Tag::Table(a) => MdTag::Table(a.iter().map(align_of).collect()),
        Tag::TableHead => MdTag::TableHead,
        Tag::TableRow => MdTag::TableRow,
        Tag::TableCell => MdTag::TableCell,
        Tag::Emphasis => MdTag::Emphasis,
        Tag::Strong => MdTag::Strong,
        Tag::Strikethrough => MdTag::Strikethrough,
        Tag::Link(_, u, t) => MdTag::Link(u.into_string(), t.into_string()),
        Tag::Image(_, u, t) => MdTag::Image(u.into_string(), t.into_string()),
        _ => MdTag::Paragraph,
    }
}

#[verifier::external_body]
fn ev_of(e: Event) -> Ev {
    match e {
        Event::Start(t) => Ev::Start(tag_of(t)),
        Event::End(t) => Ev::End(tag_of(t)),
        Event::Text(s) => Ev::Text(s.into_string()),
        Event::Code(s) => Ev::Code(s.into_string()),
        Event::Html(s) => Ev::Html(s.into_string()),
        Event::FootnoteReference(s) => Ev::FootnoteReference(s.into_string()),
        Event::SoftBreak => Ev::SoftBreak,
        Event::HardBreak => Ev::HardBreak,
        Event::Rule => Ev::Rule,
        Event::TaskListMarker(b) => Ev::TaskListMarker(b),
    }
}

/// Relies on pulldown_cmark::Parser::new_ext, with footnotes, strikethrough and
/// tables enabled: the event stream is a deterministic function of the input
/// text alone, and parsing never fails.
#[verifier::external_body]
pub fn parse_events(md: &str) -> (r: Vec<Ev>)
    ensures
        evs_view(r@) == events_of(md@),
{
    let mut opts = Options::empty();
    opts.insert(Options::ENABLE_FOOTNOTES);
    opts.insert(Options::ENABLE_STRIKETHROUGH);
    opts.insert(Options::ENABLE_TABLES);
    Parser::new_ext(md, opts).map(ev_of).collect()
}

#[verifier::external_body]
fn cow(s: String) -> CowStr<'static> {
    CowStr::Boxed(s.into_boxed_str())
}

#[verifier::external_body]
fn align_to(a: &CellAlign) -> Alignment {
    match a {
        CellAlign::Unaligned => Alignment::None,
        CellAlign::Left => Alignment::Left,
        CellAlign::Center => Alignment::Center,
        CellAlign::Right => Alignment::Right,
    }
}

#[verifier::external_body]
fn tag_to(t: MdTag) -> Tag<'static> {
    match t {
        MdTag::Paragraph => Tag::Paragraph,
        MdTag::Heading(l) => Tag::Heading(l),
        MdTag::BlockQuote => Tag::BlockQuote,
        MdTag::CodeBlock(l) => Tag::CodeBlock(CodeBlockKind::Fenced(cow(l))),
        MdTag::List(n) => Tag::List(n),
        MdTag::Item => Tag::Item,
        MdTag::FootnoteDefinition(s) => Tag::FootnoteDefinition(cow(s)),
        t => tag_to_rest(t),
    }
}

#[verifier::external_body]
fn tag_to_rest(t: MdTag) -> Tag<'static> {
    match t {
        MdTag::Table(a) => Tag::Table(a.iter().map(align_to).collect()),
        MdTag::TableHead => Tag::TableHead,
        MdTag::TableRow => Tag::TableRow,
        MdTag::TableCell => Tag::TableCell,
        MdTag::Emphasis => Tag::Emphasis,
        MdTag::Strong => Tag::Strong,
        MdTag::Strikethrough => Tag::Strikethrough,
        MdTag::Link(u, t) => Tag::Link(LinkType::Inline, cow(u), cow(t)),
        MdTag::Image(u, t) => Tag::Image(LinkType::Inline, cow(u), cow(t)),
        _ => Tag::Paragraph,
    }
}

#[verifier::external_body]
fn ev_to(e: Ev) -> Event<'static> {
    match e {
        Ev::Start(t) => Event::Start(tag_to(t)),
        Ev::End(t) => Event::End(tag_to(t)),
        Ev::Text(s) => Event::Text(cow(s)),
        Ev::Code(s) => Event::Code(cow(s)),
        Ev::Html(s) => Event::Html(cow(s)),
        Ev::FootnoteReference(s) => Event::FootnoteReference(cow(s)),
        Ev::SoftBreak => Event::SoftBreak,
        Ev::HardBreak => Event::HardBreak,
        Ev::Rule => Event::Rule,
        Ev::TaskListMarker(b) => Event::TaskListMarker(b),
    }
}

/// Relies on pulldown_cmark::html::push_html: the HTML is a deterministic
/// function of the event stream alone, and rendering never fails.
#[verifier::external_body]
pub fn render_events(evs: Vec<Ev>) -> (r: String)
    ensures
        r@ == html_of(evs_view(evs@)),
{
    let mut out = String::new();
    pulldown_cmark::html::push_html(&mut out, evs.into_iter().map(ev_to));
    out
}

} // verus!
