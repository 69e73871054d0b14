//! The markdown parser's events as the passes see them, and the events
//! that are written out as HTML.
use vstd::prelude::*;

verus! {

/// An event of the markdown parser, as far as the passes need to tell
/// events apart. `ParagraphStart` and `Other` carry the position of the
/// parser's own event, which is written out unchanged.
#[derive(Debug, Clone)]
pub enum MdEvent {
    ParagraphStart(usize),
    FootnoteStart(String),
    FootnoteEnd,
    FencedStart(String),
    FencedEnd,
    Text(String),
    Html(String),
    Other(usize),
}

/// An event ready to be written out: text to escape, raw HTML, or the
/// parser's own event at a position.
#[derive(Debug, Clone)]
pub enum HtmlEvent {
    Text(String),
    Html(String),
    Parsed(usize),
}

/// What an `MdEvent` holds, its strings as character sequences.
pub enum MdEventView {
    ParagraphStart(usize),
    FootnoteStart(Seq<char>),
    FootnoteEnd,
    FencedStart(Seq<char>),
    FencedEnd,
    Text(Seq<char>),
    Html(Seq<char>),
    Other(usize),
}

/// What an `HtmlEvent` holds, its strings as character sequences.
pub enum HtmlEventView {
    Text(Seq<char>),
    Html(Seq<char>),
    Parsed(usize),
}

impl View for MdEvent {
    type V = MdEventView;

    open spec fn view(&self) -> MdEventView {
        match self {
            MdEvent::ParagraphStart(i) => MdEventView::ParagraphStart(*i),
            MdEvent::FootnoteStart(label) => MdEventView::FootnoteStart(label@),
            MdEvent::FootnoteEnd => MdEventView::FootnoteEnd,
            MdEvent::FencedStart(lang) => MdEventView::FencedStart(lang@),
            MdEvent::FencedEnd => MdEventView::FencedEnd,
            MdEvent::Text(t) => MdEventView::Text(t@),
            MdEvent::Html(h) => MdEventView::Html(h@),
            MdEvent::Other(i) => MdEventView::Other(*i),
        }
    }
}

impl View for HtmlEvent {
    type V = HtmlEventView;

    open spec fn view(&self) -> HtmlEventView {
        match self {
            HtmlEvent::Text(t) => HtmlEventView::Text(t@),
            HtmlEvent::Html(h) => HtmlEventView::Html(h@),
            HtmlEvent::Parsed(i) => HtmlEventView::Parsed(*i),
        }
    }
}

/// The views of a sequence of events.
pub open spec fn md_views(es: Seq<MdEvent>) -> Seq<MdEventView> {
    es.map_values(|e: MdEvent| e@)
}

/// The views of a sequence of events.
pub open spec fn html_views(es: Seq<HtmlEvent>) -> Seq<HtmlEventView> {
    es.map_values(|e: HtmlEvent| e@)
}

impl MdEvent {
    /// A copy of the event.
    pub fn copied(&self) -> (r: MdEvent)
        ensures
            r@ == self@,
    {
        match self {
            MdEvent::ParagraphStart(i) => MdEvent::ParagraphStart(*i),
            MdEvent::FootnoteStart(label) => MdEvent::FootnoteStart(label.clone()),
            MdEvent::FootnoteEnd => MdEvent::FootnoteEnd,
            MdEvent::FencedStart(lang) => MdEvent::FencedStart(lang.clone()),
            MdEvent::FencedEnd => MdEvent::FencedEnd,
            MdEvent::Text(t) => MdEvent::Text(t.clone()),
            MdEvent::Html(h) => MdEvent::Html(h.clone()),
            MdEvent::Other(i) => MdEvent::Other(*i),
        }
    }
}

} // verus!
