//! The markdown event stream that pulldown-cmark produces, as plain values.
//!
//! pulldown-cmark turns markdown text into a stream of events (start of a
//! heading, some text, end of the heading, ...). The slide builder reads only
//! a few kinds of them; [`MdEvent`] holds those as plain values, and every
//! other event becomes [`MdEvent::Other`].

use vstd::prelude::*;
use pulldown_cmark::{CodeBlockKind, DefaultBrokenLinkCallback, Event, Parser, Tag, TagEnd};
use std::iter::Peekable;

verus! {

#[verifier::external_type_specification]
#[verifier::external_body]
#[verifier::reject_recursive_types(F)]
pub struct ExMarkdownParser<'input, F>(Parser<'input, F>);

#[verifier::external_type_specification]
#[verifier::external_body]
pub struct ExDefaultBrokenLinkCallback(DefaultBrokenLinkCallback);

#[verifier::external_type_specification]
#[verifier::external_body]
#[verifier::reject_recursive_types(I)]
pub struct ExPeekable<I: Iterator>(Peekable<I>);

/// A markdown event, as far as slides are concerned.
#[derive(Debug)]
pub enum MdEvent {
    /// Start of a heading of the given level (1-6).
    StartHeading(u8),
    EndHeading,
    StartParagraph,
    EndParagraph,
    /// Start of a code block: `Some(info)` for a fenced block (the info string
    /// may be empty), `None` for an indented block.
    StartCodeBlock(Option<String>),
    EndCodeBlock,
    /// Start of a list: `Some(n)` for a list numbered from `n`, `None` for a bullet list.
    StartList(Option<u64>),
    EndList,
    StartItem,
    EndItem,
    StartStrong,
    EndStrong,
    StartEmphasis,
    EndEmphasis,
    Text(String),
    Code(String),
    SoftBreak,
    HardBreak,
    Rule,
    /// Any other event (tables, links, images, HTML, block quotes, ...).
    Other,
}

/// What an [`MdEvent`] denotes.
pub enum MdEventView {
    StartHeading(u8),
    EndHeading,
    StartParagraph,
    EndParagraph,
    StartCodeBlock(Option<Seq<char>>),
    EndCodeBlock,
    StartList(Option<u64>),
    EndList,
    StartItem,
    EndItem,
    StartStrong,
    EndStrong,
    StartEmphasis,
    EndEmphasis,
    Text(Seq<char>),
    Code(Seq<char>),
    SoftBreak,
    HardBreak,
    Rule,
    Other,
}

impl DeepView for MdEvent {
    type V = MdEventView;

    open spec fn deep_view(&self) -> MdEventView {
        match self {
            MdEvent::StartHeading(l) => MdEventView::StartHeading(*l),
            MdEvent::EndHeading => MdEventView::EndHeading,
            MdEvent::StartParagraph => MdEventView::StartParagraph,
            MdEvent::EndParagraph => MdEventView::EndParagraph,
            MdEvent::StartCodeBlock(lang) => MdEventView::StartCodeBlock(lang.deep_view()),
            MdEvent::EndCodeBlock => MdEventView::EndCodeBlock,
            MdEvent::StartList(n) => MdEventView::StartList(*n),
            MdEvent::EndList => MdEventView::EndList,
            MdEvent::StartItem => MdEventView::StartItem,
            MdEvent::EndItem => MdEventView::EndItem,
            MdEvent::StartStrong => MdEventView::StartStrong,
            MdEvent::EndStrong => MdEventView::EndStrong,
            MdEvent::StartEmphasis => MdEventView::StartEmphasis,
            MdEvent::EndEmphasis => MdEventView::EndEmphasis,
            MdEvent::Text(t) => MdEventView::Text(t@),
            MdEvent::Code(t) => MdEventView::Code(t@),
            MdEvent::SoftBreak => MdEventView::SoftBreak,
            MdEvent::HardBreak => MdEventView::HardBreak,
            MdEvent::Rule => MdEventView::Rule,
            MdEvent::Other => MdEventView::Other,
        }
    }
}

/// The event opens an element (or is one the slides ignore).
pub open spec fn is_opening(e: MdEventView) -> bool {
    match e {
        MdEventView::StartHeading(_) | MdEventView::StartParagraph | MdEventView::StartCodeBlock(
            _,
        ) | MdEventView::StartList(_) | MdEventView::StartItem | MdEventView::StartStrong
        | MdEventView::StartEmphasis | MdEventView::Other => true,
        _ => false,
    }
}

/// The event closes an element (or is one the slides ignore).
pub open spec fn is_closing(e: MdEventView) -> bool {
    match e {
        MdEventView::EndHeading | MdEventView::EndParagraph | MdEventView::EndCodeBlock
        | MdEventView::EndList | MdEventView::EndItem | MdEventView::EndStrong
        | MdEventView::EndEmphasis | MdEventView::Other => true,
        _ => false,
    }
}

/// The event neither opens nor closes an element (or is one the slides ignore).
pub open spec fn is_leaf(e: MdEventView) -> bool {
    match e {
        MdEventView::Text(_) | MdEventView::Code(_) | MdEventView::SoftBreak
        | MdEventView::HardBreak | MdEventView::Rule | MdEventView::Other => true,
        _ => false,
    }
}

/// Every heading that the events open has a level from 1 to 6.
pub open spec fn heading_levels_valid(events: Seq<MdEventView>) -> bool {
    forall|i: int|
        0 <= i < events.len() ==> (#[trigger] events[i] matches MdEventView::StartHeading(l) ==> 1
            <= l <= 6)
}

/// The events that pulldown-cmark's parser (with no extensions enabled)
/// produces for `content`, each seen as an [`MdEventView`].
pub uninterp spec fn markdown_events(content: Seq<char>) -> Seq<MdEventView>;

/// The events that an open event stream has still to deliver.
pub uninterp spec fn pending_events(stream: Peekable<Parser<'_>>) -> Seq<MdEventView>;

/// How the next event of a stream is to be taken.
#[derive(Debug, Clone, Copy, PartialEq, Eq, Structural)]
pub enum EventKind {
    Finished,
    Opening,
    Closing,
    Leaf,
}

/// Opens an event stream over `content` (`pulldown_cmark::Parser::new`, made
/// peekable). The stream will deliver the events `markdown_events(content)`;
/// headings have a level from 1 to 6, as `pulldown_cmark::HeadingLevel` has
/// exactly the variants `H1 = 1` to `H6`.
#[verifier::external_body]
pub(crate) fn open_event_stream(content: &str) -> (stream: Peekable<Parser<'_>>)
    ensures
        pending_events(stream) == markdown_events(content@),
        heading_levels_valid(pending_events(stream)),
{
    Parser::new(content).peekable()
}

/// Looks at the next event of the stream without taking it (`Peekable::peek`)
/// and says which of the three taking functions below applies to it:
/// `Opening` for `Event::Start`, `Closing` for `Event::End`, `Leaf` for any
/// other event, `Finished` when the stream is exhausted.
#[verifier::external_body]
pub(crate) fn peek_event_kind(stream: &mut Peekable<Parser<'_>>) -> (k: EventKind)
    ensures
        pending_events(*final(stream)) == pending_events(*old(stream)),
        (k == EventKind::Finished) == (pending_events(*old(stream)).len() == 0),
        k == EventKind::Opening ==> is_opening(pending_events(*old(stream))[0]),
        k == EventKind::Closing ==> is_closing(pending_events(*old(stream))[0]),
        k == EventKind::Leaf ==> is_leaf(pending_events(*old(stream))[0]),
{
    match stream.peek() {
        None => EventKind::Finished,
        Some(Event::Start(_)) => EventKind::Opening,
        Some(Event::End(_)) => EventKind::Closing,
        Some(_) => EventKind::Leaf,
    }
}

/// Takes the next event, an `Event::Start`, from the stream (`Iterator::next`)
/// and converts its tag.
#[verifier::external_body]
pub(crate) fn next_opening(stream: &mut Peekable<Parser<'_>>) -> (e: MdEvent)
    requires
        pending_events(*old(stream)).len() > 0,
        is_opening(pending_events(*old(stream))[0]),
    ensures
        e.deep_view() == pending_events(*old(stream))[0],
        pending_events(*final(stream)) == pending_events(*old(stream)).drop_first(),
{
    let Some(Event::Start(tag)) = stream.next() else { return MdEvent::Other };
    match tag {
        Tag::Heading { level, .. } => MdEvent::StartHeading(level as u8),
        Tag::Paragraph => MdEvent::StartParagraph,
        Tag::CodeBlock(CodeBlockKind::Fenced(info)) => MdEvent::StartCodeBlock(Some(info.to_string())),
        Tag::CodeBlock(CodeBlockKind::Indented) => MdEvent::StartCodeBlock(None),
        Tag::List(first) => MdEvent::StartList(first),
        Tag::Item => MdEvent::StartItem,
        Tag::Strong => MdEvent::StartStrong,
        Tag::Emphasis => MdEvent::StartEmphasis,
        _ => MdEvent::Other,
    }
}

/// Takes the next event, an `Event::End`, from the stream (`Iterator::next`)
/// and converts its tag.
#[verifier::external_body]
pub(crate) fn next_closing(stream: &mut Peekable<Parser<'_>>) -> (e: MdEvent)
    requires
        pending_events(*old(stream)).len() > 0,
        is_closing(pending_events(*old(stream))[0]),
    ensures
        e.deep_view() == pending_events(*old(stream))[0],
        pending_events(*final(stream)) == pending_events(*old(stream)).drop_first(),
{
    let Some(Event::End(tag)) = stream.next() else { return MdEvent::Other };
    match tag {
        TagEnd::Heading(_) => MdEvent::EndHeading,
        TagEnd::Paragraph => MdEvent::EndParagraph,
        TagEnd::CodeBlock => MdEvent::EndCodeBlock,
        TagEnd::List(_) => MdEvent::EndList,
        TagEnd::Item => MdEvent::EndItem,
        TagEnd::Strong => MdEvent::EndStrong,
        TagEnd::Emphasis => MdEvent::EndEmphasis,
        _ => MdEvent::Other,
    }
}

/// Takes the next event, neither a start nor an end, from the stream
/// (`Iterator::next`) and converts it.
#[verifier::external_body]
pub(crate) fn next_leaf(stream: &mut Peekable<Parser<'_>>) -> (e: MdEvent)
    requires
        pending_events(*old(stream)).len() > 0,
        is_leaf(pending_events(*old(stream))[0]),
    ensures
        e.deep_view() == pending_events(*old(stream))[0],
        pending_events(*final(stream)) == pending_events(*old(stream)).drop_first(),
{
    match stream.next() {
        Some(Event::Text(text)) => MdEvent::Text(text.to_string()),
        Some(Event::Code(text)) => MdEvent::Code(text.to_string()),
        Some(Event::SoftBreak) => MdEvent::SoftBreak,
        Some(Event::HardBreak) => MdEvent::HardBreak,
        Some(Event::Rule) => MdEvent::Rule,
        _ => MdEvent::Other,
    }
}

} // verus!
