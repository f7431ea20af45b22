//! The markdown event stream as plain values.
//!
//! CommonMark is parsed by `pulldown_cmark`, with exactly three extensions: strikethrough, task
//! lists and tables. Its events are turned into the types of this module one for one; what never
//! changes a page (links, HTML blocks, footnotes) becomes `Other`.

use pulldown_cmark::{CodeBlockKind, Event, Options, Parser, Tag, TagEnd};
use vstd::prelude::*;

verus! {

/// An event of the parser; [`event_parts`] takes it apart.
#[verifier::external_type_specification]
#[verifier::external_body]
pub struct ExEvent<'a>(pulldown_cmark::Event<'a>);

/// An opening tag of the parser; [`tag_parts`] and [`table_tag`] take it apart.
#[verifier::external_type_specification]
#[verifier::external_body]
pub struct ExTag<'a>(pulldown_cmark::Tag<'a>);

/// A closing tag of the parser; [`tag_end_parts`] and [`table_tag_end`] tell its variants apart.
#[verifier::external_type_specification]
#[verifier::external_body]
pub struct ExTagEnd(pulldown_cmark::TagEnd);

/// The parts a table is tagged with.
#[derive(Debug, Clone, Copy, PartialEq, Eq, Structural)]
pub enum TablePart {
    /// The whole table.
    Table,
    /// The header row.
    Head,
    /// A body row.
    Row,
    /// A cell of either.
    Cell,
}

/// An opening tag. `S` is the type of the text it carries.
#[derive(Debug)]
pub enum MdTag<S> {
    Paragraph,
    /// The level, 1 to 6.
    Heading(u8),
    BlockQuote,
    /// The info string of a fenced block, `None` for an indented one.
    CodeBlock(Option<S>),
    /// The first number of an ordered list, `None` for bullets.
    List(Option<u64>),
    Item,
    Table(TablePart),
    Emphasis,
    Strong,
    Strikethrough,
    /// The image's destination.
    Image(S),
    /// Any tag that does not change the page.
    Other,
}

/// A closing tag.
#[derive(Debug, Clone, Copy, PartialEq, Eq, Structural)]
pub enum MdTagEnd {
    Paragraph,
    Heading,
    BlockQuote,
    CodeBlock,
    List,
    Item,
    Table(TablePart),
    Emphasis,
    Strong,
    Strikethrough,
    Image,
    /// Any tag that does not change the page.
    Other,
}

/// One markdown event. `S` is the type of the text it carries.
#[derive(Debug)]
pub enum MdEvent<S> {
    Start(MdTag<S>),
    End(MdTagEnd),
    Text(S),
    /// Inline code.
    Code(S),
    /// A line of block-level HTML.
    Html(S),
    SoftBreak,
    HardBreak,
    /// A thematic break, with its text in the document.
    Rule(S),
    /// A task-list checkbox, checked or not.
    TaskListMarker(bool),
    /// Any event that does not change the page.
    Other,
}

impl View for MdTag<String> {
    type V = MdTag<Seq<char>>;

    open spec fn view(&self) -> MdTag<Seq<char>> {
        match *self {
            MdTag::Paragraph => MdTag::Paragraph,
            MdTag::Heading(level) => MdTag::Heading(level),
            MdTag::BlockQuote => MdTag::BlockQuote,
            MdTag::CodeBlock(None) => MdTag::CodeBlock(None),
            MdTag::CodeBlock(Some(info)) => MdTag::CodeBlock(Some(info@)),
            MdTag::List(start) => MdTag::List(start),
            MdTag::Item => MdTag::Item,
            MdTag::Table(part) => MdTag::Table(part),
            MdTag::Emphasis => MdTag::Emphasis,
            MdTag::Strong => MdTag::Strong,
            MdTag::Strikethrough => MdTag::Strikethrough,
            MdTag::Image(dest) => MdTag::Image(dest@),
            MdTag::Other => MdTag::Other,
        }
    }
}

impl View for MdEvent<String> {
    type V = MdEvent<Seq<char>>;

    open spec fn view(&self) -> MdEvent<Seq<char>> {
        match *self {
            MdEvent::Start(tag) => MdEvent::Start(tag@),
            MdEvent::End(tag) => MdEvent::End(tag),
            MdEvent::Text(text) => MdEvent::Text(text@),
            MdEvent::Code(text) => MdEvent::Code(text@),
            MdEvent::Html(text) => MdEvent::Html(text@),
            MdEvent::SoftBreak => MdEvent::SoftBreak,
            MdEvent::HardBreak => MdEvent::HardBreak,
            MdEvent::Rule(source) => MdEvent::Rule(source@),
            MdEvent::TaskListMarker(checked) => MdEvent::TaskListMarker(checked),
            MdEvent::Other => MdEvent::Other,
        }
    }
}

/// The events' views, in order.
pub open spec fn event_views(events: Seq<MdEvent<String>>) -> Seq<MdEvent<Seq<char>>> {
    events.map_values(|e: MdEvent<String>| e@)
}

/// What an [`Event`] of the parser holds, one level deep.
enum EventParts<'a> {
    Start(Tag<'a>),
    End(TagEnd),
    Text(String),
    Code(String),
    Html(String),
    SoftBreak,
    HardBreak,
    Rule,
    TaskListMarker(bool),
    Other,
}

/// What a `pulldown_cmark::TagEnd` stands for.
pub uninterp spec fn tag_end_content(tag: TagEnd) -> MdTagEnd;

/// What a `pulldown_cmark::Tag` stands for.
pub uninterp spec fn tag_content(tag: Tag<'_>) -> MdTag<Seq<char>>;

/// What a `pulldown_cmark::Event` stands for. It does not hold its text in the document, so that
/// of a thematic break is empty here.
pub uninterp spec fn event_content(event: Event<'_>) -> MdEvent<Seq<char>>;

/// Takes a `pulldown_cmark::Event` apart, variant by variant. Inline HTML, math and footnote
/// references are `Other`. The claim is that the event alone decides its variant and what that
/// holds, [`event_content`]; a tag in it stands for what it stands for on its own.
#[verifier::external_body]
fn event_parts<'a>(event: Event<'a>) -> (r: EventParts<'a>)
    ensures
        event_content(event) == match r {
            EventParts::Start(tag) => MdEvent::Start(tag_content(tag)),
            EventParts::End(tag) => MdEvent::End(tag_end_content(tag)),
            EventParts::Text(text) => MdEvent::Text(text@),
            EventParts::Code(text) => MdEvent::Code(text@),
            EventParts::Html(text) => MdEvent::Html(text@),
            EventParts::SoftBreak => MdEvent::SoftBreak,
            EventParts::HardBreak => MdEvent::HardBreak,
            EventParts::Rule => MdEvent::Rule(Seq::empty()),
            EventParts::TaskListMarker(checked) => MdEvent::TaskListMarker(checked),
            EventParts::Other => MdEvent::Other,
        },
{
    match event {
        Event::Start(tag) => EventParts::Start(tag),
        Event::End(tag) => EventParts::End(tag),
        Event::Text(text) => EventParts::Text(text.into_string()),
        Event::Code(text) => EventParts::Code(text.into_string()),
        Event::Html(text) => EventParts::Html(text.into_string()),
        Event::SoftBreak => EventParts::SoftBreak,
        Event::HardBreak => EventParts::HardBreak,
        Event::Rule => EventParts::Rule,
        Event::TaskListMarker(checked) => EventParts::TaskListMarker(checked),
        _ => EventParts::Other,
    }
}

/// Takes a `pulldown_cmark::Tag` apart, variant by variant, but for the table tags, which are
/// `Other` here. The claim is that the tag alone decides its variant and what that holds,
/// [`tag_content`].
#[verifier::external_body]
fn tag_parts(tag: Tag<'_>) -> (r: MdTag<String>)
    ensures
        r@ == match tag_content(tag) {
            MdTag::Table(_) => MdTag::Other,
            content => content,
        },
{
    match tag {
        Tag::Paragraph => MdTag::Paragraph,
        Tag::Heading { level, .. } => MdTag::Heading(level as u8),
        Tag::BlockQuote(_) => MdTag::BlockQuote,
        Tag::CodeBlock(CodeBlockKind::Fenced(info)) => MdTag::CodeBlock(Some(info.into_string())),
        Tag::CodeBlock(CodeBlockKind::Indented) => MdTag::CodeBlock(None),
        Tag::List(start) => MdTag::List(start),
        Tag::Item => MdTag::Item,
        Tag::Emphasis => MdTag::Emphasis,
        Tag::Strong => MdTag::Strong,
        Tag::Strikethrough => MdTag::Strikethrough,
        Tag::Image { dest_url, .. } => MdTag::Image(dest_url.into_string()),
        _ => MdTag::Other,
    }
}

/// The part of a table that a `pulldown_cmark::Tag` opens, `None` for any other tag. The claim is
/// that the tag alone decides it, as [`tag_content`].
#[verifier::external_body]
fn table_tag(tag: &Tag<'_>) -> (r: Option<TablePart>)
    ensures
        r == match tag_content(*tag) {
            MdTag::Table(part) => Some(part),
            _ => None,
        },
{
    match tag {
        Tag::Table(_) => Some(TablePart::Table),
        Tag::TableHead => Some(TablePart::Head),
        Tag::TableRow => Some(TablePart::Row),
        Tag::TableCell => Some(TablePart::Cell),
        _ => None,
    }
}

/// Tells the variants of a `pulldown_cmark::TagEnd` apart, but for the table tags, which are
/// `Other` here. The claim is that the tag alone decides its variant, [`tag_end_content`].
#[verifier::external_body]
fn tag_end_parts(tag: &TagEnd) -> (r: MdTagEnd)
    ensures
        r == match tag_end_content(*tag) {
            MdTagEnd::Table(_) => MdTagEnd::Other,
            content => content,
        },
{
    match tag {
        TagEnd::Paragraph => MdTagEnd::Paragraph,
        TagEnd::Heading(_) => MdTagEnd::Heading,
        TagEnd::BlockQuote(_) => MdTagEnd::BlockQuote,
        TagEnd::CodeBlock => MdTagEnd::CodeBlock,
        TagEnd::List(_) => MdTagEnd::List,
        TagEnd::Item => MdTagEnd::Item,
        TagEnd::Emphasis => MdTagEnd::Emphasis,
        TagEnd::Strong => MdTagEnd::Strong,
        TagEnd::Strikethrough => MdTagEnd::Strikethrough,
        TagEnd::Image => MdTagEnd::Image,
        _ => MdTagEnd::Other,
    }
}

/// The part of a table that a `pulldown_cmark::TagEnd` closes, `None` for any other tag. The claim
/// is that the tag alone decides it, as [`tag_end_content`].
#[verifier::external_body]
fn table_tag_end(tag: &TagEnd) -> (r: Option<TablePart>)
    ensures
        r == match tag_end_content(*tag) {
            MdTagEnd::Table(part) => Some(part),
            _ => None,
        },
{
    match tag {
        TagEnd::Table => Some(TablePart::Table),
        TagEnd::TableHead => Some(TablePart::Head),
        TagEnd::TableRow => Some(TablePart::Row),
        TagEnd::TableCell => Some(TablePart::Cell),
        _ => None,
    }
}

/// An event with its text in the document, which only a thematic break keeps.
pub open spec fn with_source(event: MdEvent<Seq<char>>, source: Seq<char>) -> MdEvent<Seq<char>> {
    match event {
        MdEvent::Rule(_) => MdEvent::Rule(source),
        other => other,
    }
}

/// The plain event for an event of the parser; `source` is its text in the document.
fn plain_event(event: Event<'_>, source: &str) -> (r: MdEvent<String>)
    ensures
        r@ == with_source(event_content(event), source@),
{
    match event_parts(event) {
        EventParts::Start(tag) => match table_tag(&tag) {
            Some(part) => MdEvent::Start(MdTag::Table(part)),
            None => MdEvent::Start(tag_parts(tag)),
        },
        EventParts::End(tag) => match table_tag_end(&tag) {
            Some(part) => MdEvent::End(MdTagEnd::Table(part)),
            None => MdEvent::End(tag_end_parts(&tag)),
        },
        EventParts::Text(text) => MdEvent::Text(text),
        EventParts::Code(text) => MdEvent::Code(text),
        EventParts::Html(text) => MdEvent::Html(text),
        EventParts::SoftBreak => MdEvent::SoftBreak,
        EventParts::HardBreak => MdEvent::HardBreak,
        EventParts::Rule => MdEvent::Rule(source.to_owned()),
        EventParts::TaskListMarker(checked) => MdEvent::TaskListMarker(checked),
        EventParts::Other => MdEvent::Other,
    }
}

/// The events that `pulldown_cmark` reads in a document, with strikethrough, task lists and
/// tables enabled.
pub uninterp spec fn markdown_events(md: Seq<char>) -> Seq<MdEvent<Seq<char>>>;

/// Whether a document is empty or ASCII white space only.
pub open spec fn is_blank(md: Seq<char>) -> bool {
    forall|i: int| 0 <= i < md.len() ==> '\u{9}' <= #[trigger] md[i] <= '\u{d}' || md[i] == ' '
}

/// The events of `md`, from `pulldown_cmark::Parser::new_ext` and its offset iterator, in order,
/// each as a plain value. The claims are that the document's text alone decides them, and that a
/// blank document has none: the parser steps over blank lines.
#[verifier::external_body]
pub(crate) fn parse_markdown(md: &str) -> (r: Vec<MdEvent<String>>)
    ensures
        event_views(r@) == markdown_events(md@),
        is_blank(md@) ==> r@.len() == 0,
{
    let options = Options::ENABLE_STRIKETHROUGH | Options::ENABLE_TASKLISTS | Options::ENABLE_TABLES;
    Parser::new_ext(md, options)
        .into_offset_iter()
        .map(|(event, range)| plain_event(event, &md[range]))
        .collect()
}

} // verus!
