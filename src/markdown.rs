//! The parser events that the heading extractor reads, as plain values.
use pulldown_cmark::{Event, Options, Parser, Tag, TagEnd};
use vstd::prelude::*;

verus! {

/// What the heading extractor needs to know of one CommonMark parser event.
pub enum EventKind {
    /// A heading opens; its level, 1 for `H1` through 6 for `H6`.
    HeadingStart(u8),
    HeadingEnd,
    LinkStart,
    LinkEnd,
    /// Literal text or the content of a code span.
    Text(String),
    /// Any other event.
    Other,
}

/// One parser event with the byte range `start..end` of the source that it covers.
pub struct MdEvent {
    pub kind: EventKind,
    pub start: usize,
    pub end: usize,
}

pub enum EventKindView {
    HeadingStart(u8),
    HeadingEnd,
    LinkStart,
    LinkEnd,
    Text(Seq<char>),
    Other,
}

pub struct EventView {
    pub kind: EventKindView,
    pub start: usize,
    pub end: usize,
}

impl View for MdEvent {
    type V = EventView;

    open spec fn view(&self) -> EventView {
        let kind = match self.kind {
            EventKind::HeadingStart(level) => EventKindView::HeadingStart(level),
            EventKind::HeadingEnd => EventKindView::HeadingEnd,
            EventKind::LinkStart => EventKindView::LinkStart,
            EventKind::LinkEnd => EventKindView::LinkEnd,
            EventKind::Text(t) => EventKindView::Text(t@),
            EventKind::Other => EventKindView::Other,
        };
        EventView { kind, start: self.start, end: self.end }
    }
}

pub open spec fn events_view(events: Seq<MdEvent>) -> Seq<EventView> {
    events.map_values(|e: MdEvent| e@)
}

/// The events that a CommonMark parser with every extension enabled produces for a text.
pub uninterp spec fn markdown_events(text: Seq<char>) -> Seq<EventView>;

/// Every heading that opens has a level from 1 to 6.
pub open spec fn levels_in_range(events: Seq<EventView>) -> bool {
    forall|i: int|
        0 <= i < events.len() ==> match #[trigger] events[i].kind {
            EventKindView::HeadingStart(level) => 1 <= level <= 6,
            _ => true,
        }
}

/// Relies on pulldown_cmark's `Parser::new_ext` with `Options::all()`, walked by
/// `into_offset_iter`: the events and their byte ranges are a function of the text, and a
/// `HeadingLevel` is one of `H1 = 1` to `H6`.
#[verifier::external_body]
pub(crate) fn parse_events(markdown: &str) -> (r: Vec<MdEvent>)
    ensures
        events_view(r@) == markdown_events(markdown@),
        levels_in_range(events_view(r@)),
{
    let mut out = Vec::new();
    for (event, range) in Parser::new_ext(markdown, Options::all()).into_offset_iter() {
        let kind = match event {
            Event::Start(Tag::Heading { level, .. }) => EventKind::HeadingStart(level as u8),
            Event::End(TagEnd::Heading(_)) => EventKind::HeadingEnd,
            Event::Start(Tag::Link { .. }) => EventKind::LinkStart,
            Event::End(TagEnd::Link) => EventKind::LinkEnd,
            Event::Text(text) => EventKind::Text(text.into_string()),
            Event::Code(text) => EventKind::Text(text.into_string()),
            _ => EventKind::Other,
        };
        out.push(MdEvent { kind, start: range.start, end: range.end });
    }
    out
}

} // verus!
