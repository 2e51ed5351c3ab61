//! The flat, streaming representation: start-tag, text and end-tag signals
//! produced by an upstream tokenizer. The builder consumes these in one pass.
use vstd::prelude::*;

verus! {

/// One structural event. Start and end events delimit scopes; `Text`
/// carries content; `Other` stands for any signal the builder does not
/// recognize (such content is skipped).
#[derive(Debug, PartialEq)]
pub enum StructuralEvent {
    ParagraphStart,
    HeadingStart { level: u8 },
    ListStart { numbered: bool },
    ItemStart,
    TableStart,
    TableHeadStart,
    ImageStart { url: String, title: String },
    LinkStart { url: String, title: String },
    Text { text: String },
    ParagraphEnd,
    HeadingEnd,
    LinkEnd,
    ImageEnd,
    ListEnd,
    TableHeadEnd,
    TableEnd,
    Other,
}

#[verifier::ext_equal]
pub enum EventView {
    ParagraphStart,
    HeadingStart { level: u8 },
    ListStart { numbered: bool },
    ItemStart,
    TableStart,
    TableHeadStart,
    ImageStart { url: Seq<char>, title: Seq<char> },
    LinkStart { url: Seq<char>, title: Seq<char> },
    Text { text: Seq<char> },
    ParagraphEnd,
    HeadingEnd,
    LinkEnd,
    ImageEnd,
    ListEnd,
    TableHeadEnd,
    TableEnd,
    Other,
}

pub open spec fn event_view(e: StructuralEvent) -> EventView {
    match e {
        StructuralEvent::ParagraphStart => EventView::ParagraphStart,
        StructuralEvent::HeadingStart { level } => EventView::HeadingStart { level },
        StructuralEvent::ListStart { numbered } => EventView::ListStart { numbered },
        StructuralEvent::ItemStart => EventView::ItemStart,
        StructuralEvent::TableStart => EventView::TableStart,
        StructuralEvent::TableHeadStart => EventView::TableHeadStart,
        StructuralEvent::ImageStart { url, title } => EventView::ImageStart {
            url: url@,
            title: title@,
        },
        StructuralEvent::LinkStart { url, title } => EventView::LinkStart {
            url: url@,
            title: title@,
        },
        StructuralEvent::Text { text } => EventView::Text { text: text@ },
        StructuralEvent::ParagraphEnd => EventView::ParagraphEnd,
        StructuralEvent::HeadingEnd => EventView::HeadingEnd,
        StructuralEvent::LinkEnd => EventView::LinkEnd,
        StructuralEvent::ImageEnd => EventView::ImageEnd,
        StructuralEvent::ListEnd => EventView::ListEnd,
        StructuralEvent::TableHeadEnd => EventView::TableHeadEnd,
        StructuralEvent::TableEnd => EventView::TableEnd,
        StructuralEvent::Other => EventView::Other,
    }
}

impl View for StructuralEvent {
    type V = EventView;

    open spec fn view(&self) -> EventView {
        event_view(*self)
    }
}

pub open spec fn events_view(s: Seq<StructuralEvent>) -> Seq<EventView> {
    Seq::new(
        s.len(),
        |i: int|
            if 0 <= i < s.len() {
                event_view(s[i])
            } else {
                arbitrary()
            },
    )
}

} // verus!
