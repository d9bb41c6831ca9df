//! The block-structured document model the parser walks: an ordered
//! sequence of events (headings, paragraphs, lists, tables, block quotes,
//! fenced code, inline links and breaks).
//!
//! The event stream itself comes from the `pulldown_cmark` parser through
//! a small trusted layer; everything that consumes it is verified.

use vstd::prelude::*;

use pulldown_cmark::Event;
use pulldown_cmark::Options;
use pulldown_cmark::Parser;
use pulldown_cmark::Tag;
use pulldown_cmark::TagEnd;

verus! {

/// Specification-level image of one document event.
pub enum MdEv {
    HeadingStart(u8),
    HeadingEnd(u8),
    ListStart,
    ListEnd,
    ItemStart,
    ItemEnd,
    TableStart,
    TableEnd,
    TableHeadStart,
    TableHeadEnd,
    RowStart,
    RowEnd,
    CellStart,
    CellEnd,
    ParagraphEnd,
    LinkStart(Seq<char>),
    LinkEnd,
    QuoteStart,
    QuoteEnd,
    CodeStart,
    CodeEnd,
    Text(Seq<char>),
    Code(Seq<char>),
    Html(Seq<char>),
    SoftBreak,
    HardBreak,
    Other,
}

/// One event of the document model, as the executable parser consumes it.
pub enum MdEvent {
    /// A heading opens; the payload is its level.
    HeadingStart(u8),
    /// A heading closes; the payload is its level.
    HeadingEnd(u8),
    ListStart,
    ListEnd,
    ItemStart,
    ItemEnd,
    TableStart,
    TableEnd,
    TableHeadStart,
    TableHeadEnd,
    RowStart,
    RowEnd,
    CellStart,
    CellEnd,
    ParagraphEnd,
    /// A link opens; the payload is its destination.
    LinkStart(String),
    LinkEnd,
    QuoteStart,
    QuoteEnd,
    CodeStart,
    CodeEnd,
    /// A text fragment.
    Text(String),
    /// An inline code fragment.
    Code(String),
    /// A raw HTML fragment.
    Html(String),
    SoftBreak,
    HardBreak,
    /// Any event this pipeline ignores.
    Other,
}

impl View for MdEvent {
    type V = MdEv;

    open spec fn view(&self) -> MdEv {
        match self {
            MdEvent::HeadingStart(l) => MdEv::HeadingStart(*l),
            MdEvent::HeadingEnd(l) => MdEv::HeadingEnd(*l),
            MdEvent::ListStart => MdEv::ListStart,
            MdEvent::ListEnd => MdEv::ListEnd,
            MdEvent::ItemStart => MdEv::ItemStart,
            MdEvent::ItemEnd => MdEv::ItemEnd,
            MdEvent::TableStart => MdEv::TableStart,
            MdEvent::TableEnd => MdEv::TableEnd,
            MdEvent::TableHeadStart => MdEv::TableHeadStart,
            MdEvent::TableHeadEnd => MdEv::TableHeadEnd,
            MdEvent::RowStart => MdEv::RowStart,
            MdEvent::RowEnd => MdEv::RowEnd,
            MdEvent::CellStart => MdEv::CellStart,
            MdEvent::CellEnd => MdEv::CellEnd,
            MdEvent::ParagraphEnd => MdEv::ParagraphEnd,
            MdEvent::LinkStart(d) => MdEv::LinkStart(d@),
            MdEvent::LinkEnd => MdEv::LinkEnd,
            MdEvent::QuoteStart => MdEv::QuoteStart,
            MdEvent::QuoteEnd => MdEv::QuoteEnd,
            MdEvent::CodeStart => MdEv::CodeStart,
            MdEvent::CodeEnd => MdEv::CodeEnd,
            MdEvent::Text(t) => MdEv::Text(t@),
            MdEvent::Code(t) => MdEv::Code(t@),
            MdEvent::Html(t) => MdEv::Html(t@),
            MdEvent::SoftBreak => MdEv::SoftBreak,
            MdEvent::HardBreak => MdEv::HardBreak,
            MdEvent::Other => MdEv::Other,
        }
    }
}

impl DeepView for MdEvent {
    type V = MdEv;

    open spec fn deep_view(&self) -> MdEv {
        self.view()
    }
}

#[verifier::external_type_specification]
#[verifier::external_body]
pub struct ExEvent<'a>(Event<'a>);

#[verifier::external_type_specification]
#[verifier::external_body]
pub struct ExTag<'a>(Tag<'a>);

#[verifier::external_type_specification]
#[verifier::external_body]
pub struct ExTagEnd(TagEnd);

/// The event stream of a document: what the CommonMark parser, with tables
/// enabled, yields for `s`.  A function of the text alone.
pub uninterp spec fn md_events(s: Seq<char>) -> Seq<MdEv>;

/// Relies on the variant structure of pulldown_cmark::Tag; tells the
/// variants this pipeline reads apart and moves their fields.
#[verifier::external_body]
fn convert_start(t: Tag<'_>) -> MdEvent {
    match t {
        Tag::Heading { level, .. } => MdEvent::HeadingStart(level as u8),
        Tag::List(_) => MdEvent::ListStart,
        Tag::Item => MdEvent::ItemStart,
        Tag::Table(_) => MdEvent::TableStart,
        Tag::TableHead => MdEvent::TableHeadStart,
        Tag::TableRow => MdEvent::RowStart,
        Tag::TableCell => MdEvent::CellStart,
        Tag::Link { dest_url, .. } => MdEvent::LinkStart(dest_url.into_string()),
        Tag::BlockQuote(_) => MdEvent::QuoteStart,
        Tag::CodeBlock(_) => MdEvent::CodeStart,
        _ => MdEvent::Other,
    }
}

/// Relies on the variant structure of pulldown_cmark::TagEnd; tells the
/// variants this pipeline reads apart.
#[verifier::external_body]
fn convert_end(t: TagEnd) -> MdEvent {
    match t {
        TagEnd::Heading(level) => MdEvent::HeadingEnd(level as u8),
        TagEnd::List(_) => MdEvent::ListEnd,
        TagEnd::Item => MdEvent::ItemEnd,
        TagEnd::Table => MdEvent::TableEnd,
        TagEnd::TableHead => MdEvent::TableHeadEnd,
        TagEnd::TableRow => MdEvent::RowEnd,
        TagEnd::TableCell => MdEvent::CellEnd,
        TagEnd::Paragraph => MdEvent::ParagraphEnd,
        TagEnd::Link => MdEvent::LinkEnd,
        TagEnd::BlockQuote(_) => MdEvent::QuoteEnd,
        TagEnd::CodeBlock => MdEvent::CodeEnd,
        _ => MdEvent::Other,
    }
}

/// Relies on the variant structure of pulldown_cmark::Event; tells the
/// variants apart and moves their fields.
#[verifier::external_body]
fn convert_event(e: Event<'_>) -> MdEvent {
    match e {
        Event::Start(t) => convert_start(t),
        Event::End(t) => convert_end(t),
        Event::Text(t) => MdEvent::Text(t.into_string()),
        Event::Code(t) => MdEvent::Code(t.into_string()),
        Event::Html(t) => MdEvent::Html(t.into_string()),
        Event::SoftBreak => MdEvent::SoftBreak,
        Event::HardBreak => MdEvent::HardBreak,
        _ => MdEvent::Other,
    }
}

/// Relies on pulldown_cmark::Parser::new_ext with tables enabled: yields
/// the CommonMark event stream of `text`, a function of the text alone.
#[verifier::external_body]
pub fn parse_events(text: &str) -> (r: Vec<MdEvent>)
    ensures
        r.deep_view() == md_events(text@),
{
    Parser::new_ext(text, Options::ENABLE_TABLES).map(convert_event).collect()
}

/// The event stream of a document under no extensions: what the
/// CommonMark parser with empty options yields for `s`.  A function of
/// the text alone.
pub uninterp spec fn md_events_plain(s: Seq<char>) -> Seq<MdEv>;

/// Relies on pulldown_cmark::Parser::new_ext with empty options: yields
/// the plain CommonMark event stream of `text`, a function of the text
/// alone.
#[verifier::external_body]
pub fn parse_events_plain(text: &str) -> (r: Vec<MdEvent>)
    ensures
        r.deep_view() == md_events_plain(text@),
{
    Parser::new_ext(text, Options::empty()).map(convert_event).collect()
}

} // verus!
