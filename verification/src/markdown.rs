//! The Markdown events that the Markdown-to-Delta conversion reads, and the
//! parser (`pulldown_cmark`) that produces them.
use vstd::prelude::*;

use pulldown_cmark::{CodeBlockKind, Event, Options, Parser, Tag, TagEnd};

verus! {

/// Level of a heading.
#[derive(Debug, Clone, Copy, PartialEq, Eq)]
pub enum Level {
    H1,
    H2,
    H3,
    H4,
    H5,
    H6,
}

/// A Markdown parse event, as far as the Delta conversion tells events apart.
#[derive(Debug)]
pub enum MdEvent {
    StartHeading(Level),
    StartStrong,
    StartEmphasis,
    StartStrikethrough,
    /// A link, with its destination.
    StartLink(String),
    /// A code block: `Some(info string)` when fenced, `None` when indented.
    StartCodeBlock(Option<String>),
    StartBlockQuote,
    /// An image, with its destination.
    StartImage(String),
    /// Any other start tag (paragraph, list, item, ...).
    StartOther,
    EndHeading,
    EndStrong,
    EndEmphasis,
    EndStrikethrough,
    EndLink,
    EndCodeBlock,
    EndItem,
    EndBlockQuote,
    EndParagraph,
    /// Any other end tag.
    EndOther,
    Text(String),
    Code(String),
    SoftBreak,
    HardBreak,
    Rule,
    /// Block-level HTML.
    Html(String),
    /// Any other event (inline HTML, footnote references, ...).
    Other,
}

#[verifier::external_type_specification]
#[verifier::external_body]
pub struct ExEvent<'a>(Event<'a>);

#[verifier::external_type_specification]
#[verifier::external_body]
pub struct ExTag<'a>(Tag<'a>);

#[verifier::external_type_specification]
#[verifier::external_body]
pub struct ExTagEnd(TagEnd);

#[verifier::external_type_specification]
#[verifier::external_body]
pub struct ExHeadingLevel(pulldown_cmark::HeadingLevel);

/// The events that `pulldown_cmark` produces for a Markdown text, with
/// strikethrough and task lists enabled.
pub uninterp spec fn markdown_events(md: Seq<char>) -> Seq<MdEvent>;

/// Parses Markdown with `pulldown_cmark::Parser::new_ext` (strikethrough
/// and task lists enabled). The contract says only that the events are a
/// function of the text: what `pulldown_cmark` makes of Markdown is its own.
#[verifier::external_body]
pub(crate) fn parse_markdown(md: &str) -> (events: Vec<MdEvent>)
    ensures
        events@ == markdown_events(md@),
{
    let options = Options::ENABLE_STRIKETHROUGH | Options::ENABLE_TASKLISTS;
    Parser::new_ext(md, options).map(event_from).collect()
}

/// `pulldown_cmark::Event` as an `MdEvent` (one arm per event kind).
#[verifier::external_body]
fn event_from(ev: Event<'_>) -> MdEvent {
    match ev {
        Event::Start(tag) => start_from(tag),
        Event::End(end) => end_from(end),
        Event::Text(t) => MdEvent::Text(t.to_string()),
        Event::Code(c) => MdEvent::Code(c.to_string()),
        Event::Html(h) => MdEvent::Html(h.to_string()),
        Event::SoftBreak => MdEvent::SoftBreak,
        Event::HardBreak => MdEvent::HardBreak,
        Event::Rule => MdEvent::Rule,
        _ => MdEvent::Other,
    }
}

/// `pulldown_cmark::Tag` as a start event (one arm per tag kind).
#[verifier::external_body]
fn start_from(tag: Tag<'_>) -> MdEvent {
    match tag {
        Tag::Heading { level, .. } => MdEvent::StartHeading(level_from(level)),
        Tag::Strong => MdEvent::StartStrong,
        Tag::Emphasis => MdEvent::StartEmphasis,
        Tag::Strikethrough => MdEvent::StartStrikethrough,
        Tag::Link { dest_url, .. } => MdEvent::StartLink(dest_url.to_string()),
        Tag::CodeBlock(CodeBlockKind::Fenced(l)) => MdEvent::StartCodeBlock(Some(l.to_string())),
        Tag::CodeBlock(CodeBlockKind::Indented) => MdEvent::StartCodeBlock(None),
        Tag::BlockQuote(_) => MdEvent::StartBlockQuote,
        Tag::Image { dest_url, .. } => MdEvent::StartImage(dest_url.to_string()),
        _ => MdEvent::StartOther,
    }
}

/// `pulldown_cmark::TagEnd` as an end event (one arm per tag kind).
#[verifier::external_body]
fn end_from(end: TagEnd) -> MdEvent {
    match end {
        TagEnd::Heading(_) => MdEvent::EndHeading,
        TagEnd::Strong => MdEvent::EndStrong,
        TagEnd::Emphasis => MdEvent::EndEmphasis,
        TagEnd::Strikethrough => MdEvent::EndStrikethrough,
        TagEnd::Link => MdEvent::EndLink,
        TagEnd::CodeBlock => MdEvent::EndCodeBlock,
        TagEnd::Item => MdEvent::EndItem,
        TagEnd::BlockQuote(_) => MdEvent::EndBlockQuote,
        TagEnd::Paragraph => MdEvent::EndParagraph,
        _ => MdEvent::EndOther,
    }
}

/// `pulldown_cmark::HeadingLevel` as a `Level` (one arm per level).
#[verifier::external_body]
fn level_from(level: pulldown_cmark::HeadingLevel) -> Level {
    match level {
        pulldown_cmark::HeadingLevel::H1 => Level::H1,
        pulldown_cmark::HeadingLevel::H2 => Level::H2,
        pulldown_cmark::HeadingLevel::H3 => Level::H3,
        pulldown_cmark::HeadingLevel::H4 => Level::H4,
        pulldown_cmark::HeadingLevel::H5 => Level::H5,
        pulldown_cmark::HeadingLevel::H6 => Level::H6,
    }
}

/// Number of a heading level.
pub open spec fn level_num(level: Level) -> u8 {
    match level {
        Level::H1 => 1,
        Level::H2 => 2,
        Level::H3 => 3,
        Level::H4 => 4,
        Level::H5 => 5,
        Level::H6 => 6,
    }
}

/// The number of a heading level (1 to 6).
pub fn heading_level_num(level: Level) -> (n: u8)
    ensures
        n == level_num(level),
        1 <= n <= 6,
{
    match level {
        Level::H1 => 1,
        Level::H2 => 2,
        Level::H3 => 3,
        Level::H4 => 4,
        Level::H5 => 5,
        Level::H6 => 6,
    }
}

} // verus!
