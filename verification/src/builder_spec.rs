//! The mathematical model of the tree builder: a fold over the event
//! sequence. `run_from` threads a `BuildStateView` through `step`, one
//! event at a time; the executable builder is proved to agree with it.
use vstd::prelude::*;

use crate::events::EventView;
use crate::model::DocError;
use crate::model::DocumentView;
use crate::model::ElementView;
use crate::model::ImageDataView;
use crate::model::ImageDimension;
use crate::model::ListItemView;
use crate::model::TableCellView;
use crate::model::TableHeaderView;
use crate::model::TableRowView;
use crate::model::default_geometry_view;

verus! {

/// The side-channel state for the table currently being assembled.
#[verifier::ext_equal]
pub struct TableStateView {
    pub in_header: bool,
    pub headers: Seq<TableHeaderView>,
    pub rows: Seq<TableRowView>,
}

/// The whole builder state: sealed top-level elements, the one open
/// top-level scope, the list nesting counter, the open table, and how
/// many image references have been resolved so far.
#[verifier::ext_equal]
pub struct BuildStateView {
    pub body: Seq<ElementView>,
    pub current: Option<ElementView>,
    pub depth: nat,
    pub table: Option<TableStateView>,
    pub img_i: nat,
}

pub open spec fn init_state() -> BuildStateView {
    BuildStateView {
        body: Seq::empty(),
        current: None,
        depth: 0,
        table: None,
        img_i: 0,
    }
}

/// Links and headers arriving inside a list item displace the `Text`
/// placeholder that the item's own start event created.
pub open spec fn fixup_items(items: Seq<ListItemView>, el: ElementView) -> Seq<ListItemView> {
    if (el is Hyperlink || el is Header) && items.len() > 0 && items.last().element is Text {
        items.drop_last()
    } else {
        items
    }
}

/// Descends `n` levels through the last item of each nested list and
/// appends `el` as a new item there. Fails when the path of trailing
/// sub-lists the depth counter promises does not exist.
pub open spec fn insert_items(items: Seq<ListItemView>, el: ElementView, n: nat) -> Result<
    Seq<ListItemView>,
    DocError,
>
    decreases n,
{
    if n == 0 {
        Ok(fixup_items(items, el).push(ListItemView { element: el }))
    } else if items.len() == 0 {
        Err(DocError::StructuralInvariantViolation)
    } else {
        match items.last().element {
            ElementView::List { elements: inner, numbered } => match insert_items(
                inner,
                el,
                (n - 1) as nat,
            ) {
                Ok(inner2) => Ok(
                    items.update(
                        items.len() - 1,
                        ListItemView { element: ElementView::List { elements: inner2, numbered } },
                    ),
                ),
                Err(e) => Err(e),
            },
            _ => Err(DocError::StructuralInvariantViolation),
        }
    }
}

/// How many levels a scope-start or text event descends for the given
/// list depth counter.
pub open spec fn descents(depth: nat) -> nat {
    if depth >= 1 {
        (depth - 1) as nat
    } else {
        0
    }
}

/// Scope start: with no open scope the new element becomes the open
/// scope; with an open list it is inserted as an item at the current
/// depth; any other open scope silently drops it.
pub open spec fn process_creation(
    current: Option<ElementView>,
    el: ElementView,
    depth: nat,
) -> Result<Option<ElementView>, DocError> {
    match current {
        None => Ok(Some(el)),
        Some(cur) => match cur {
            ElementView::List { elements, numbered } => match insert_items(
                elements,
                el,
                descents(depth),
            ) {
                Ok(items2) => Ok(Some(ElementView::List { elements: items2, numbered })),
                Err(e) => Err(e),
            },
            _ => Ok(Some(cur)),
        },
    }
}

/// Routes a text run to the last item at the current nesting depth:
/// text accumulates, a hyperlink's title is overwritten, a header's
/// text is overwritten, anything else ignores it.
pub open spec fn text_into_items(items: Seq<ListItemView>, t: Seq<char>, n: nat) -> Result<
    Seq<ListItemView>,
    DocError,
>
    decreases n,
{
    if items.len() == 0 {
        Err(DocError::StructuralInvariantViolation)
    } else if n == 0 {
        let li = items.last();
        let li2 = match li.element {
            ElementView::Text { text, size } => ListItemView {
                element: ElementView::Text { text: text + t, size },
            },
            ElementView::Hyperlink { title, url, alt, size } => ListItemView {
                element: ElementView::Hyperlink { title: t, url, alt, size },
            },
            ElementView::Header { level, text } => ListItemView {
                element: ElementView::Header { level, text: t },
            },
            _ => li,
        };
        Ok(items.update(items.len() - 1, li2))
    } else {
        match items.last().element {
            ElementView::List { elements: inner, numbered } => match text_into_items(
                inner,
                t,
                (n - 1) as nat,
            ) {
                Ok(inner2) => Ok(
                    items.update(
                        items.len() - 1,
                        ListItemView { element: ElementView::List { elements: inner2, numbered } },
                    ),
                ),
                Err(e) => Err(e),
            },
            _ => Err(DocError::StructuralInvariantViolation),
        }
    }
}

/// How a text run changes the open top-level scope.
pub open spec fn text_current(
    current: Option<ElementView>,
    t: Seq<char>,
    depth: nat,
) -> Result<Option<ElementView>, DocError> {
    match current {
        None => Ok(None),
        Some(cur) => match cur {
            ElementView::Paragraph { elements } => Ok(
                Some(
                    ElementView::Paragraph {
                        elements: elements.push(ElementView::Text { text: t, size: 14 }),
                    },
                ),
            ),
            ElementView::Header { level, text } => Ok(
                Some(ElementView::Header { level, text: text + t }),
            ),
            ElementView::List { elements, numbered } => match text_into_items(
                elements,
                t,
                descents(depth),
            ) {
                Ok(items2) => Ok(Some(ElementView::List { elements: items2, numbered })),
                Err(e) => Err(e),
            },
            ElementView::Image(d) => Ok(
                Some(ElementView::Image(ImageDataView { alt: t, ..d })),
            ),
            _ => Ok(Some(cur)),
        },
    }
}

/// How a text run extends the open table: a new header cell while the
/// head scope is open, otherwise the row-building rule — append to the
/// last row if it is still short of the header count, else start a new
/// row.
pub open spec fn table_text(ts: TableStateView, t: Seq<char>) -> TableStateView {
    let cell_el = ElementView::Text { text: t, size: 14 };
    if ts.in_header {
        TableStateView {
            headers: ts.headers.push(TableHeaderView { element: cell_el, width: 30 }),
            ..ts
        }
    } else if ts.rows.len() == 0 {
        TableStateView {
            rows: ts.rows.push(TableRowView { cells: seq![TableCellView { element: cell_el }] }),
            ..ts
        }
    } else if ts.rows.last().cells.len() == ts.headers.len() {
        TableStateView {
            rows: ts.rows.push(TableRowView { cells: seq![TableCellView { element: cell_el }] }),
            ..ts
        }
    } else {
        let last = ts.rows.last();
        TableStateView {
            rows: ts.rows.update(
                ts.rows.len() - 1,
                TableRowView { cells: last.cells.push(TableCellView { element: cell_el }) },
            ),
            ..ts
        }
    }
}

/// The image element created when an image reference resolves.
pub open spec fn image_element(bytes: Seq<u8>, url: Seq<char>, title: Seq<char>) -> ElementView {
    ElementView::Image(
        ImageDataView {
            bytes,
            title,
            alt: title,
            image_type: url,
            dimension: ImageDimension { width: None, height: None },
        },
    )
}

/// One step of the builder. `images` holds, in document order, what the
/// image loader answered for each image reference.
pub open spec fn step(
    st: BuildStateView,
    ev: EventView,
    images: Seq<Option<Seq<u8>>>,
) -> Result<BuildStateView, DocError> {
    match ev {
        EventView::ParagraphStart => match process_creation(
            st.current,
            ElementView::Paragraph { elements: Seq::empty() },
            st.depth,
        ) {
            Ok(c) => Ok(BuildStateView { current: c, ..st }),
            Err(e) => Err(e),
        },
        EventView::HeadingStart { level } => match process_creation(
            st.current,
            ElementView::Header { level, text: Seq::empty() },
            st.depth,
        ) {
            Ok(c) => Ok(BuildStateView { current: c, ..st }),
            Err(e) => Err(e),
        },
        EventView::ListStart { numbered } => match process_creation(
            st.current,
            ElementView::List { elements: Seq::empty(), numbered },
            st.depth,
        ) {
            Ok(c) => Ok(BuildStateView { current: c, depth: st.depth + 1, ..st }),
            Err(e) => Err(e),
        },
        EventView::ItemStart => match process_creation(
            st.current,
            ElementView::Text { text: Seq::empty(), size: 14 },
            st.depth,
        ) {
            Ok(c) => Ok(BuildStateView { current: c, ..st }),
            Err(e) => Err(e),
        },
        EventView::TableStart => Ok(
            BuildStateView {
                table: Some(
                    TableStateView { in_header: false, headers: Seq::empty(), rows: Seq::empty() },
                ),
                ..st
            },
        ),
        EventView::TableHeadStart => match st.table {
            Some(ts) => Ok(BuildStateView { table: Some(TableStateView { in_header: true, ..ts }), ..st }),
            None => Ok(st),
        },
        EventView::ImageStart { url, title } => {
            if st.img_i < images.len() && images[st.img_i as int] is Some {
                Ok(
                    BuildStateView {
                        current: Some(
                            image_element(images[st.img_i as int].unwrap(), url, title),
                        ),
                        img_i: st.img_i + 1,
                        ..st
                    },
                )
            } else {
                Err(DocError::ImageLoadFailed)
            }
        },
        EventView::LinkStart { url, title } => match process_creation(
            st.current,
            ElementView::Hyperlink { title, url, alt: "alt"@, size: 14 },
            st.depth,
        ) {
            Ok(c) => Ok(BuildStateView { current: c, ..st }),
            Err(e) => Err(e),
        },
        EventView::Text { text } => match text_current(st.current, text, st.depth) {
            Ok(c) => {
                let tbl = match st.table {
                    Some(ts) => Some(table_text(ts, text)),
                    None => None,
                };
                Ok(BuildStateView { current: c, table: tbl, ..st })
            },
            Err(e) => Err(e),
        },
        EventView::ParagraphEnd | EventView::HeadingEnd | EventView::LinkEnd
            | EventView::ImageEnd => match st.current {
            Some(cur) => {
                if cur is List {
                    Ok(st)
                } else {
                    Ok(BuildStateView { body: st.body.push(cur), current: None, ..st })
                }
            },
            None => Ok(st),
        },
        EventView::ListEnd => {
            if st.depth == 0 {
                Err(DocError::StructuralInvariantViolation)
            } else if st.depth == 1 {
                match st.current {
                    Some(cur) => Ok(
                        BuildStateView { body: st.body.push(cur), current: None, depth: 0, ..st },
                    ),
                    None => Ok(BuildStateView { depth: 0, ..st }),
                }
            } else {
                Ok(BuildStateView { depth: (st.depth - 1) as nat, ..st })
            }
        },
        EventView::TableHeadEnd => match st.table {
            Some(ts) => Ok(
                BuildStateView { table: Some(TableStateView { in_header: false, ..ts }), ..st },
            ),
            None => Ok(st),
        },
        EventView::TableEnd => match st.table {
            Some(ts) => Ok(
                BuildStateView {
                    body: st.body.push(ElementView::Table { headers: ts.headers, rows: ts.rows }),
                    table: None,
                    ..st
                },
            ),
            None => Ok(st),
        },
        EventView::Other => Ok(st),
    }
}

/// Folds `step` over `events[i..]`, starting from `st`.
pub open spec fn run_from(
    events: Seq<EventView>,
    images: Seq<Option<Seq<u8>>>,
    st: BuildStateView,
    i: int,
) -> Result<BuildStateView, DocError>
    decreases events.len() - i,
{
    if i < 0 || i >= events.len() {
        Ok(st)
    } else {
        match step(st, events[i], images) {
            Ok(st2) => run_from(events, images, st2, i + 1),
            Err(e) => Err(e),
        }
    }
}

/// The final builder state for a whole event sequence.
pub open spec fn build_spec(events: Seq<EventView>, images: Seq<Option<Seq<u8>>>) -> Result<
    BuildStateView,
    DocError,
> {
    run_from(events, images, init_state(), 0)
}

/// The document the builder returns: the sealed top-level elements under
/// default page geometry. Whatever scope is still open when the events
/// run out is discarded, as is an unfinished table.
pub open spec fn build_doc_spec(events: Seq<EventView>, images: Seq<Option<Seq<u8>>>) -> Result<
    DocumentView,
    DocError,
> {
    match build_spec(events, images) {
        Ok(st) => Ok(default_geometry_view(st.body)),
        Err(e) => Err(e),
    }
}

/// Whether any event in the sequence is an image reference.
pub open spec fn has_image_event(events: Seq<EventView>) -> bool {
    exists|i: int| 0 <= i < events.len() && (#[trigger] events[i]) is ImageStart
}

/// Splitting a fold after its first `j` events: running `events.take(j + 1)`
/// is running `events.take(j)` and then stepping over `events[j]`.
pub proof fn lemma_run_snoc(
    events: Seq<EventView>,
    images: Seq<Option<Seq<u8>>>,
    st: BuildStateView,
    i: int,
    j: int,
)
    requires
        0 <= i <= j < events.len(),
    ensures
        run_from(events.take(j + 1), images, st, i) == (match run_from(
            events.take(j),
            images,
            st,
            i,
        ) {
            Ok(s) => step(s, events[j], images),
            Err(e) => Err(e),
        }),
    decreases j - i,
{
    assert(events.take(j + 1)[j] == events[j]);
    if i == j {
        assert(run_from(events.take(j), images, st, i) == Ok::<BuildStateView, DocError>(st));
        match step(st, events[j], images) {
            Ok(st2) => {
                assert(run_from(events.take(j + 1), images, st2, i + 1) == Ok::<
                    BuildStateView,
                    DocError,
                >(st2));
            },
            Err(e) => {},
        }
    } else {
        assert(events.take(j + 1)[i] == events[i]);
        assert(events.take(j)[i] == events[i]);
        match step(st, events[i], images) {
            Ok(st2) => {
                lemma_run_snoc(events, images, st2, i + 1, j);
            },
            Err(e) => {},
        }
    }
}

/// An error in a prefix of the fold is the result of the whole fold.
pub proof fn lemma_run_err(
    events: Seq<EventView>,
    images: Seq<Option<Seq<u8>>>,
    st: BuildStateView,
    i: int,
    j: int,
    e: DocError,
)
    requires
        0 <= i <= j <= events.len(),
        run_from(events.take(j), images, st, i) == Err::<BuildStateView, DocError>(e),
    ensures
        run_from(events, images, st, i) == Err::<BuildStateView, DocError>(e),
    decreases j - i,
{
    if i < j {
        assert(events.take(j)[i] == events[i]);
        match step(st, events[i], images) {
            Ok(st2) => {
                lemma_run_err(events, images, st2, i + 1, j, e);
            },
            Err(e2) => {},
        }
    }
}

/// A successful fold never looks past the images it actually consumed,
/// so appending further image answers cannot change it.
pub proof fn lemma_run_more_images(
    events: Seq<EventView>,
    images: Seq<Option<Seq<u8>>>,
    extra: Option<Seq<u8>>,
    st: BuildStateView,
    i: int,
    st2: BuildStateView,
)
    requires
        run_from(events, images, st, i) == Ok::<BuildStateView, DocError>(st2),
        st.img_i <= images.len(),
    ensures
        run_from(events, images.push(extra), st, i) == Ok::<BuildStateView, DocError>(st2),
    decreases events.len() - i,
{
    let images2 = images.push(extra);
    if i < 0 || i >= events.len() {
    } else {
        match step(st, events[i], images) {
            Ok(stm) => {
                assert(step(st, events[i], images2) == Ok::<BuildStateView, DocError>(stm)) by {
                    if events[i] is ImageStart {
                        assert(st.img_i < images.len());
                        assert(images2[st.img_i as int] == images[st.img_i as int]);
                    }
                }
                assert(stm.img_i <= images.len());
                lemma_run_more_images(events, images, extra, stm, i + 1, st2);
            },
            Err(e) => {},
        }
    }
}

} // verus!
