//! The executable tree builder: one pass over the event stream, proved
//! to agree with the fold in `builder_spec`.
use vstd::prelude::*;

use crate::Transformer;
use crate::builder_spec::BuildStateView;
use crate::builder_spec::TableStateView;
use crate::builder_spec::build_doc_spec;
use crate::builder_spec::descents;
use crate::builder_spec::fixup_items;
use crate::builder_spec::has_image_event;
use crate::builder_spec::image_element;
use crate::builder_spec::init_state;
use crate::builder_spec::insert_items;
use crate::builder_spec::lemma_run_err;
use crate::builder_spec::lemma_run_more_images;
use crate::builder_spec::lemma_run_snoc;
use crate::builder_spec::process_creation;
use crate::builder_spec::run_from;
use crate::builder_spec::step;
use crate::builder_spec::table_text;
use crate::builder_spec::text_current;
use crate::builder_spec::text_into_items;
use crate::events::StructuralEvent;
use crate::events::EventView;
use crate::events::events_view;
use crate::model::DocError;
use crate::model::Document;
use crate::model::DocumentView;
use crate::model::Element;
use crate::model::ElementView;
use crate::model::ImageData;
use crate::model::ImageDimension;
use crate::model::ListItem;
use crate::model::ListItemView;
use crate::model::TableCell;
use crate::model::TableCellView;
use crate::model::TableHeader;
use crate::model::TableHeaderView;
use crate::model::TableRow;
use crate::model::TableRowView;
use crate::model::cells_view;
use crate::model::elements_view;
use crate::model::headers_view;
use crate::model::items_view;
use crate::model::rows_view;

verus! {

/// Supplies the bytes behind an image reference. The default binding of
/// the surrounding application reads from disk; tests substitute
/// in-memory implementations. No behaviour is assumed of it: the
/// builder is verified for every possible answer.
pub trait ImageLoader {
    /// Resolves an image reference to its raw bytes; `None` when the
    /// resource cannot be loaded.
    fn load(&mut self, url: &String) -> Option<Vec<u8>>;
}

/// The table being assembled, decoupled from the open-scope state.
#[derive(Debug, PartialEq)]
pub struct TableState {
    pub in_header: bool,
    pub headers: Vec<TableHeader>,
    pub rows: Vec<TableRow>,
}

/// The builder's whole mutable state for one pass.
#[derive(Debug, PartialEq)]
pub struct BuildState {
    pub body: Vec<Element>,
    pub current: Option<Element>,
    pub depth: usize,
    pub table: Option<TableState>,
    pub img_i: usize,
}

pub open spec fn table_state_view(ts: TableState) -> TableStateView {
    TableStateView {
        in_header: ts.in_header,
        headers: headers_view(ts.headers@),
        rows: rows_view(ts.rows@),
    }
}

impl View for TableState {
    type V = TableStateView;

    open spec fn view(&self) -> TableStateView {
        table_state_view(*self)
    }
}

pub open spec fn current_view(c: Option<Element>) -> Option<ElementView> {
    match c {
        Some(e) => Some(e@),
        None => None,
    }
}

pub open spec fn build_state_view(st: BuildState) -> BuildStateView {
    BuildStateView {
        body: elements_view(st.body@),
        current: current_view(st.current),
        depth: st.depth as nat,
        table: match st.table {
            Some(ts) => Some(table_state_view(ts)),
            None => None,
        },
        img_i: st.img_i as nat,
    }
}

impl View for BuildState {
    type V = BuildStateView;

    open spec fn view(&self) -> BuildStateView {
        build_state_view(*self)
    }
}

impl BuildState {
    pub fn new() -> (r: BuildState)
        ensures
            r@ == init_state(),
    {
        let r = BuildState { body: Vec::new(), current: None, depth: 0, table: None, img_i: 0 };
        proof {
            assert(r@ =~= init_state());
        }
        r
    }
}

/// A fresh copy of raw resource bytes.
pub fn copy_bytes(src: &Vec<u8>) -> (r: Vec<u8>)
    ensures
        r@ == src@,
{
    let mut r: Vec<u8> = Vec::new();
    let mut i: usize = 0;
    while i < src.len()
        invariant
            0 <= i <= src@.len(),
            r@ == src@.take(i as int),
        decreases src@.len() - i,
    {
        r.push(src[i]);
        proof {
            assert(r@ =~= src@.take(i + 1));
        }
        i = i + 1;
    }
    proof {
        assert(src@.take(src@.len() as int) =~= src@);
    }
    r
}

/// Executable counterpart of `insert_items`.
fn insert_items_exec(items: Vec<ListItem>, el: Element, n: usize) -> (r: Result<
    Vec<ListItem>,
    DocError,
>)
    ensures
        match r {
            Ok(v) => insert_items(items_view(items@), el@, n as nat) == Ok::<_, DocError>(
                items_view(v@),
            ),
            Err(e) => insert_items(items_view(items@), el@, n as nat) == Err::<Seq<ListItemView>, _>(
                e,
            ),
        },
    decreases n,
{
    let ghost orig = items@;
    if n == 0 {
        let mut items = items;
        let fix = match &el {
            Element::Hyperlink { .. } => true,
            Element::Header { .. } => true,
            _ => false,
        };
        if fix && items.len() > 0 {
            let lastidx = items.len() - 1;
            let is_text = match &items[lastidx].element {
                Element::Text { .. } => true,
                _ => false,
            };
            if is_text {
                items.pop();
                proof {
                    assert(items@ =~= orig.drop_last());
                    assert(items_view(orig)[orig.len() - 1].element is Text);
                    assert(items_view(items@) =~= items_view(orig).drop_last());
                    assert(items_view(items@) =~= fixup_items(items_view(orig), el@));
                }
            } else {
                proof {
                    assert(!(items_view(orig)[orig.len() - 1].element is Text));
                    assert(items_view(items@) =~= fixup_items(items_view(orig), el@));
                }
            }
        } else {
            proof {
                assert(items_view(items@) =~= fixup_items(items_view(orig), el@));
            }
        }
        let ghost fixed = items@;
        items.push(ListItem { element: el });
        proof {
            assert(items@ =~= fixed.push(ListItem { element: el }));
            assert(items_view(items@) =~= items_view(fixed).push(ListItemView { element: el@ }));
        }
        Ok(items)
    } else {
        if items.len() == 0 {
            return Err(DocError::StructuralInvariantViolation);
        }
        let mut items = items;
        let last = items.pop().unwrap();
        proof {
            assert(last == orig.last());
            assert(items@ =~= orig.drop_last());
            assert(items_view(orig)[orig.len() - 1].element == last.element@);
        }
        match last.element {
            Element::List { elements, numbered } => {
                proof {
                    assert(items_view(orig).last().element == ElementView::List {
                        elements: items_view(elements@),
                        numbered,
                    });
                }
                match insert_items_exec(elements, el, n - 1) {
                    Ok(inner) => {
                        let ghost innerv = items_view(inner@);
                        items.push(
                            ListItem { element: Element::List { elements: inner, numbered } },
                        );
                        proof {
                            assert(items_view(items@) =~= items_view(orig).update(
                                orig.len() - 1,
                                ListItemView {
                                    element: ElementView::List { elements: innerv, numbered },
                                },
                            ));
                        }
                        Ok(items)
                    },
                    Err(e) => Err(e),
                }
            },
            _ => Err(DocError::StructuralInvariantViolation),
        }
    }
}

/// Executable counterpart of `text_into_items`.
fn text_into_items_exec(items: Vec<ListItem>, t: &String, n: usize) -> (r: Result<
    Vec<ListItem>,
    DocError,
>)
    ensures
        match r {
            Ok(v) => text_into_items(items_view(items@), t@, n as nat) == Ok::<_, DocError>(
                items_view(v@),
            ),
            Err(e) => text_into_items(items_view(items@), t@, n as nat) == Err::<
                Seq<ListItemView>,
                _,
            >(e),
        },
    decreases n,
{
    let ghost orig = items@;
    if items.len() == 0 {
        return Err(DocError::StructuralInvariantViolation);
    }
    let mut items = items;
    let last = items.pop().unwrap();
    proof {
        assert(last == orig.last());
        assert(items@ =~= orig.drop_last());
        assert(items_view(orig)[orig.len() - 1].element == last.element@);
    }
    if n == 0 {
        let li2 = match last.element {
            Element::Text { text, size } => {
                let mut text = text;
                text.append(t.as_str());
                ListItem { element: Element::Text { text, size } }
            },
            Element::Hyperlink { title: _, url, alt, size } => ListItem {
                element: Element::Hyperlink { title: t.clone(), url, alt, size },
            },
            Element::Header { level, text: _ } => ListItem {
                element: Element::Header { level, text: t.clone() },
            },
            other => ListItem { element: other },
        };
        let ghost li2v = li2@;
        items.push(li2);
        proof {
            assert(items_view(items@) =~= items_view(orig).update(orig.len() - 1, li2v));
        }
        Ok(items)
    } else {
        match last.element {
            Element::List { elements, numbered } => {
                proof {
                    assert(items_view(orig).last().element == ElementView::List {
                        elements: items_view(elements@),
                        numbered,
                    });
                }
                match text_into_items_exec(elements, t, n - 1) {
                    Ok(inner) => {
                        let ghost innerv = items_view(inner@);
                        items.push(
                            ListItem { element: Element::List { elements: inner, numbered } },
                        );
                        proof {
                            assert(items_view(items@) =~= items_view(orig).update(
                                orig.len() - 1,
                                ListItemView {
                                    element: ElementView::List { elements: innerv, numbered },
                                },
                            ));
                        }
                        Ok(items)
                    },
                    Err(e) => Err(e),
                }
            },
            _ => Err(DocError::StructuralInvariantViolation),
        }
    }
}

/// Executable counterpart of `process_creation`.
fn process_creation_exec(current: &mut Option<Element>, el: Element, depth: usize) -> (r: Result<
    (),
    DocError,
>)
    ensures
        match r {
            Ok(()) => process_creation(current_view(*old(current)), el@, depth as nat) == Ok::<
                _,
                DocError,
            >(current_view(*final(current))),
            Err(e) => process_creation(current_view(*old(current)), el@, depth as nat) == Err::<
                Option<ElementView>,
                _,
            >(e),
        },
{
    match current.take() {
        None => {
            *current = Some(el);
            Ok(())
        },
        Some(cur) => match cur {
            Element::List { elements, numbered } => {
                let n = if depth >= 1 {
                    depth - 1
                } else {
                    0
                };
                proof {
                    assert(n as nat == descents(depth as nat));
                }
                match insert_items_exec(elements, el, n) {
                    Ok(items2) => {
                        *current = Some(Element::List { elements: items2, numbered });
                        Ok(())
                    },
                    Err(e) => Err(e),
                }
            },
            other => {
                *current = Some(other);
                Ok(())
            },
        },
    }
}

/// Executable counterpart of `table_text`.
fn table_text_exec(ts: &mut TableState, t: &String)
    ensures
        (*final(ts))@ == table_text((*old(ts))@, t@),
{
    let ghost origv = (*old(ts))@;
    let cell = Element::Text { text: t.clone(), size: 14 };
    let ghost cellv = ElementView::Text { text: t@, size: 14 };
    if ts.in_header {
        ts.headers.push(TableHeader { element: cell, width: 30 });
        proof {
            assert(headers_view(ts.headers@) =~= origv.headers.push(
                TableHeaderView { element: cellv, width: 30 },
            ));
            assert((*ts)@ =~= table_text(origv, t@));
        }
    } else {
        let rlen = ts.rows.len();
        if rlen == 0 {
            let mut cells: Vec<TableCell> = Vec::new();
            cells.push(TableCell { element: cell });
            let ghost cellsv = cells@;
            ts.rows.push(TableRow { cells });
            proof {
                assert(cells_view(cellsv) =~= seq![TableCellView { element: cellv }]);
                assert(rows_view(ts.rows@) =~= origv.rows.push(
                    TableRowView { cells: seq![TableCellView { element: cellv }] },
                ));
                assert((*ts)@ =~= table_text(origv, t@));
            }
        } else {
            let full = ts.rows[rlen - 1].cells.len() == ts.headers.len();
            proof {
                assert(origv.rows.last().cells == cells_view(ts.rows@[rlen - 1].cells@));
                assert(origv.rows.last().cells.len() == ts.rows@[rlen - 1].cells@.len());
                assert(origv.headers.len() == ts.headers@.len());
            }
            if full {
                let mut cells: Vec<TableCell> = Vec::new();
                cells.push(TableCell { element: cell });
                let ghost cellsv = cells@;
                ts.rows.push(TableRow { cells });
                proof {
                    assert(cells_view(cellsv) =~= seq![TableCellView { element: cellv }]);
                    assert(rows_view(ts.rows@) =~= origv.rows.push(
                        TableRowView { cells: seq![TableCellView { element: cellv }] },
                    ));
                    assert((*ts)@ =~= table_text(origv, t@));
                }
            } else {
                let ghost rowsorig = ts.rows@;
                let mut row = ts.rows.pop().unwrap();
                row.cells.push(TableCell { element: cell });
                let ghost rowv = row@;
                ts.rows.push(row);
                proof {
                    assert(rowv.cells =~= origv.rows.last().cells.push(
                        TableCellView { element: cellv },
                    ));
                    assert(rows_view(ts.rows@) =~= origv.rows.update(
                        origv.rows.len() - 1,
                        TableRowView {
                            cells: origv.rows.last().cells.push(
                                TableCellView { element: cellv },
                            ),
                        },
                    ));
                    assert((*ts)@ =~= table_text(origv, t@));
                }
            }
        }
    }
}

/// The view of the image answers handed to `build_with_images`.
pub open spec fn images_view(s: Seq<Option<Vec<u8>>>) -> Seq<Option<Seq<u8>>> {
    Seq::new(
        s.len(),
        |i: int|
            if 0 <= i < s.len() {
                match s[i] {
                    Some(b) => Some(b@),
                    None => None,
                }
            } else {
                arbitrary()
            },
    )
}

/// One successful step raises the depth and image counters by at most
/// one each.
pub proof fn lemma_step_bounds(
    st: BuildStateView,
    ev: EventView,
    imgs: Seq<Option<Seq<u8>>>,
    st2: BuildStateView,
)
    requires
        step(st, ev, imgs) == Ok::<BuildStateView, DocError>(st2),
    ensures
        st2.depth <= st.depth + 1,
        st2.img_i <= st.img_i + 1,
        !(ev is ImageStart) ==> st2.img_i == st.img_i,
{
}

/// How the image events of a prefix relate to those of the next longer
/// prefix, and to those of the whole sequence.
pub proof fn lemma_has_image_take(evs: Seq<EventView>, i: int)
    requires
        0 <= i < evs.len(),
    ensures
        has_image_event(evs.take(i + 1)) <==> (has_image_event(evs.take(i)) || evs[i] is ImageStart),
        has_image_event(evs.take(i)) ==> has_image_event(evs),
{
    if has_image_event(evs.take(i)) {
        let j = choose|j: int| 0 <= j < evs.take(i).len() && (#[trigger] evs.take(i)[j]) is ImageStart;
        assert(evs.take(i + 1)[j] is ImageStart);
        assert(evs[j] is ImageStart);
    }
    if evs[i] is ImageStart {
        assert(evs.take(i + 1)[i] is ImageStart);
    }
    if has_image_event(evs.take(i + 1)) && !(evs[i] is ImageStart) {
        let j = choose|j: int|
            0 <= j < evs.take(i + 1).len() && (#[trigger] evs.take(i + 1)[j]) is ImageStart;
        if j < i {
            assert(evs.take(i)[j] is ImageStart);
        } else {
            assert(evs[i] is ImageStart);
        }
    }
}

/// Resolving an image reference replaces whatever top-level scope was
/// open with a fresh image element.
fn image_step_exec(st: &mut BuildState, bytes: Vec<u8>, url: &String, title: &String)
    requires
        old(st).img_i < usize::MAX,
    ensures
        (*final(st))@ == (BuildStateView {
            current: Some(image_element(bytes@, url@, title@)),
            img_i: (*old(st))@.img_i + 1,
            ..(*old(st))@
        }),
{
    st.current = Some(
        Element::Image(
            ImageData {
                bytes,
                title: title.clone(),
                alt: title.clone(),
                image_type: url.clone(),
                dimension: ImageDimension::none(),
            },
        ),
    );
    st.img_i = st.img_i + 1;
    proof {
        assert((*st)@ =~= (BuildStateView {
            current: Some(image_element(bytes@, url@, title@)),
            img_i: (*old(st))@.img_i + 1,
            ..(*old(st))@
        }));
    }
}

/// Applies one non-image event to the builder state, mirroring `step`.
#[verifier::rlimit(80)]
#[verifier::spinoff_prover]
fn apply_event(st: &mut BuildState, ev: &StructuralEvent) -> (r: Result<(), DocError>)
    requires
        !(*ev is ImageStart),
        old(st).depth < usize::MAX,
    ensures
        forall|imgs: Seq<Option<Seq<u8>>>|
            #[trigger] step((*old(st))@, (*ev)@, imgs) == (match r {
                Ok(()) => Ok::<BuildStateView, DocError>((*final(st))@),
                Err(e) => Err::<BuildStateView, DocError>(e),
            }),
{
    let ghost prev = (*old(st))@;
    match ev {
        StructuralEvent::ParagraphStart => {
            match process_creation_exec(&mut st.current, Element::Paragraph { elements: Vec::new() }, st.depth) {
                Ok(()) => {
                    proof {
                        assert(elements_view(Seq::<Element>::empty()) =~= Seq::<ElementView>::empty());
                        assert forall|imgs: Seq<Option<Seq<u8>>>|
                            #[trigger] step(prev, (*ev)@, imgs) == Ok::<BuildStateView, DocError>((*st)@) by {
                            assert((*st)@ =~= (BuildStateView { current: current_view(st.current), ..prev }));
                        }
                    }
                    Ok(())
                },
                Err(e) => {
                    proof {
                        assert(elements_view(Seq::<Element>::empty()) =~= Seq::<ElementView>::empty());
                    }
                    Err(e)
                },
            }
        },
        StructuralEvent::HeadingStart { level } => {
            match process_creation_exec(&mut st.current, Element::Header { level: *level, text: String::new() }, st.depth) {
                Ok(()) => {
                    proof {
                        assert forall|imgs: Seq<Option<Seq<u8>>>|
                            #[trigger] step(prev, (*ev)@, imgs) == Ok::<BuildStateView, DocError>((*st)@) by {
                            assert((*st)@ =~= (BuildStateView { current: current_view(st.current), ..prev }));
                        }
                    }
                    Ok(())
                },
                Err(e) => Err(e),
            }
        },
        StructuralEvent::ListStart { numbered } => {
            match process_creation_exec(&mut st.current, Element::List { elements: Vec::new(), numbered: *numbered }, st.depth) {
                Ok(()) => {
                    st.depth = st.depth + 1;
                    proof {
                        assert(items_view(Seq::<ListItem>::empty()) =~= Seq::<ListItemView>::empty());
                        assert forall|imgs: Seq<Option<Seq<u8>>>|
                            #[trigger] step(prev, (*ev)@, imgs) == Ok::<BuildStateView, DocError>((*st)@) by {
                            assert((*st)@ =~= (BuildStateView {
                                current: current_view(st.current),
                                depth: prev.depth + 1,
                                ..prev
                            }));
                        }
                    }
                    Ok(())
                },
                Err(e) => {
                    proof {
                        assert(items_view(Seq::<ListItem>::empty()) =~= Seq::<ListItemView>::empty());
                    }
                    Err(e)
                },
            }
        },
        StructuralEvent::ItemStart => {
            match process_creation_exec(&mut st.current, Element::Text { text: String::new(), size: 14 }, st.depth) {
                Ok(()) => {
                    proof {
                        assert forall|imgs: Seq<Option<Seq<u8>>>|
                            #[trigger] step(prev, (*ev)@, imgs) == Ok::<BuildStateView, DocError>((*st)@) by {
                            assert((*st)@ =~= (BuildStateView { current: current_view(st.current), ..prev }));
                        }
                    }
                    Ok(())
                },
                Err(e) => Err(e),
            }
        },
        StructuralEvent::LinkStart { url, title } => {
            match process_creation_exec(
                &mut st.current,
                Element::Hyperlink {
                    title: title.clone(),
                    url: url.clone(),
                    alt: String::from_str("alt"),
                    size: 14,
                },
                st.depth,
            ) {
                Ok(()) => {
                    proof {
                        assert forall|imgs: Seq<Option<Seq<u8>>>|
                            #[trigger] step(prev, (*ev)@, imgs) == Ok::<BuildStateView, DocError>((*st)@) by {
                            assert((*st)@ =~= (BuildStateView { current: current_view(st.current), ..prev }));
                        }
                    }
                    Ok(())
                },
                Err(e) => Err(e),
            }
        },
        StructuralEvent::TableStart => {
            st.table = Some(TableState { in_header: false, headers: Vec::new(), rows: Vec::new() });
            proof {
                assert(headers_view(Seq::<TableHeader>::empty()) =~= Seq::<TableHeaderView>::empty());
                assert(rows_view(Seq::<TableRow>::empty()) =~= Seq::<TableRowView>::empty());
                assert forall|imgs: Seq<Option<Seq<u8>>>|
                    #[trigger] step(prev, (*ev)@, imgs) == Ok::<BuildStateView, DocError>((*st)@) by {
                    assert((*st)@ =~= (BuildStateView {
                        table: Some(TableStateView {
                            in_header: false,
                            headers: Seq::empty(),
                            rows: Seq::empty(),
                        }),
                        ..prev
                    }));
                }
            }
            Ok(())
        },
        StructuralEvent::TableHeadStart => {
            match st.table.take() {
                Some(ts) => {
                    let mut ts = ts;
                    ts.in_header = true;
                    st.table = Some(ts);
                },
                None => {},
            }
            proof {
                assert forall|imgs: Seq<Option<Seq<u8>>>|
                    #[trigger] step(prev, (*ev)@, imgs) == Ok::<BuildStateView, DocError>((*st)@) by {
                    match prev.table {
                        Some(tsv) => {
                            assert((*st)@ =~= (BuildStateView {
                                table: Some(TableStateView { in_header: true, ..tsv }),
                                ..prev
                            }));
                        },
                        None => {
                            assert((*st)@ =~= prev);
                        },
                    }
                }
            }
            Ok(())
        },
        StructuralEvent::TableHeadEnd => {
            match st.table.take() {
                Some(ts) => {
                    let mut ts = ts;
                    ts.in_header = false;
                    st.table = Some(ts);
                },
                None => {},
            }
            proof {
                assert forall|imgs: Seq<Option<Seq<u8>>>|
                    #[trigger] step(prev, (*ev)@, imgs) == Ok::<BuildStateView, DocError>((*st)@) by {
                    match prev.table {
                        Some(tsv) => {
                            assert((*st)@ =~= (BuildStateView {
                                table: Some(TableStateView { in_header: false, ..tsv }),
                                ..prev
                            }));
                        },
                        None => {
                            assert((*st)@ =~= prev);
                        },
                    }
                }
            }
            Ok(())
        },
        StructuralEvent::TableEnd => {
            match st.table.take() {
                Some(ts) => {
                    let TableState { headers, rows, .. } = ts;
                    let ghost hv = headers_view(headers@);
                    let ghost rv = rows_view(rows@);
                    st.body.push(Element::Table { headers, rows });
                    proof {
                        assert(elements_view(st.body@) =~= prev.body.push(
                            ElementView::Table { headers: hv, rows: rv },
                        ));
                    }
                },
                None => {},
            }
            proof {
                assert forall|imgs: Seq<Option<Seq<u8>>>|
                    #[trigger] step(prev, (*ev)@, imgs) == Ok::<BuildStateView, DocError>((*st)@) by {
                    match prev.table {
                        Some(tsv) => {
                            assert((*st)@ =~= (BuildStateView {
                                body: prev.body.push(
                                    ElementView::Table { headers: tsv.headers, rows: tsv.rows },
                                ),
                                table: None,
                                ..prev
                            }));
                        },
                        None => {
                            assert((*st)@ =~= prev);
                        },
                    }
                }
            }
            Ok(())
        },
        StructuralEvent::Text { text } => {
            let cur0 = st.current.take();
            match cur0 {
                None => {},
                Some(cur) => match cur {
                    Element::Paragraph { elements } => {
                        let mut elements = elements;
                        let ghost elsv = elements_view(elements@);
                        elements.push(Element::Text { text: text.clone(), size: 14 });
                        proof {
                            assert(elements_view(elements@) =~= elsv.push(
                                ElementView::Text { text: text@, size: 14 },
                            ));
                        }
                        st.current = Some(Element::Paragraph { elements });
                    },
                    Element::Header { level, text: htext } => {
                        let mut htext = htext;
                        htext.append(text.as_str());
                        st.current = Some(Element::Header { level, text: htext });
                    },
                    Element::List { elements, numbered } => {
                        let n = if st.depth >= 1 {
                            st.depth - 1
                        } else {
                            0
                        };
                        proof {
                            assert(n as nat == descents(prev.depth));
                        }
                        match text_into_items_exec(elements, text, n) {
                            Ok(items2) => {
                                st.current = Some(Element::List { elements: items2, numbered });
                            },
                            Err(e) => {
                                return Err(e);
                            },
                        }
                    },
                    Element::Image(d) => {
                        let mut d = d;
                        d.alt = text.clone();
                        st.current = Some(Element::Image(d));
                    },
                    other => {
                        st.current = Some(other);
                    },
                },
            }
            proof {
                assert(text_current(prev.current, text@, prev.depth) == Ok::<
                    Option<ElementView>,
                    DocError,
                >(current_view(st.current)));
            }
            let ghost curv = current_view(st.current);
            match st.table.take() {
                Some(ts) => {
                    let mut ts = ts;
                    table_text_exec(&mut ts, text);
                    st.table = Some(ts);
                },
                None => {},
            }
            proof {
                assert forall|imgs: Seq<Option<Seq<u8>>>|
                    #[trigger] step(prev, (*ev)@, imgs) == Ok::<BuildStateView, DocError>((*st)@) by {
                    match prev.table {
                        Some(tsv) => {
                            assert((*st)@ =~= (BuildStateView {
                                current: curv,
                                table: Some(table_text(tsv, text@)),
                                ..prev
                            }));
                        },
                        None => {
                            assert((*st)@ =~= (BuildStateView { current: curv, table: None, ..prev }));
                        },
                    }
                }
            }
            Ok(())
        },
        StructuralEvent::ParagraphEnd | StructuralEvent::HeadingEnd | StructuralEvent::LinkEnd
            | StructuralEvent::ImageEnd => {
            match st.current.take() {
                Some(cur) => {
                    let is_list = match &cur {
                        Element::List { .. } => true,
                        _ => false,
                    };
                    if is_list {
                        st.current = Some(cur);
                    } else {
                        let ghost curv = cur@;
                        st.body.push(cur);
                        proof {
                            assert(elements_view(st.body@) =~= prev.body.push(curv));
                        }
                    }
                },
                None => {},
            }
            proof {
                assert forall|imgs: Seq<Option<Seq<u8>>>|
                    #[trigger] step(prev, (*ev)@, imgs) == Ok::<BuildStateView, DocError>((*st)@) by {
                    match prev.current {
                        Some(curv) => {
                            if curv is List {
                                assert((*st)@ =~= prev);
                            } else {
                                assert((*st)@ =~= (BuildStateView {
                                    body: prev.body.push(curv),
                                    current: None,
                                    ..prev
                                }));
                            }
                        },
                        None => {
                            assert((*st)@ =~= prev);
                        },
                    }
                }
            }
            Ok(())
        },
        StructuralEvent::ListEnd => {
            if st.depth == 0 {
                return Err(DocError::StructuralInvariantViolation);
            }
            st.depth = st.depth - 1;
            if st.depth == 0 {
                match st.current.take() {
                    Some(cur) => {
                        let ghost curv = cur@;
                        st.body.push(cur);
                        proof {
                            assert(elements_view(st.body@) =~= prev.body.push(curv));
                        }
                    },
                    None => {},
                }
            }
            proof {
                assert forall|imgs: Seq<Option<Seq<u8>>>|
                    #[trigger] step(prev, (*ev)@, imgs) == Ok::<BuildStateView, DocError>((*st)@) by {
                    if prev.depth == 1 {
                        match prev.current {
                            Some(curv) => {
                                assert((*st)@ =~= (BuildStateView {
                                    body: prev.body.push(curv),
                                    current: None,
                                    depth: 0,
                                    ..prev
                                }));
                            },
                            None => {
                                assert((*st)@ =~= (BuildStateView { depth: 0, ..prev }));
                            },
                        }
                    } else {
                        assert((*st)@ =~= (BuildStateView { depth: (prev.depth - 1) as nat, ..prev }));
                    }
                }
            }
            Ok(())
        },
        StructuralEvent::Other => {
            proof {
                assert forall|imgs: Seq<Option<Seq<u8>>>|
                    #[trigger] step(prev, (*ev)@, imgs) == Ok::<BuildStateView, DocError>((*st)@) by {
                    assert((*st)@ =~= prev);
                }
            }
            Ok(())
        },
        StructuralEvent::ImageStart { .. } => {
            proof {
                assert(false);
            }
            Err(DocError::ImageLoadFailed)
        },
    }
}

impl Transformer {
    /// Builds the document tree for an event stream whose image
    /// references have already been resolved: `images[k]` holds what the
    /// loader answered for the k-th image event of the stream, `None`
    /// standing for a failed load. A missing entry counts as a failed
    /// load too.
    pub fn build_with_images(events: &Vec<StructuralEvent>, images: &Vec<Option<Vec<u8>>>) -> (r:
        Result<Document, DocError>)
        ensures
            match r {
                Ok(d) => build_doc_spec(events_view(events@), images_view(images@)) == Ok::<
                    DocumentView,
                    DocError,
                >(d@),
                Err(e) => build_doc_spec(events_view(events@), images_view(images@)) == Err::<
                    DocumentView,
                    DocError,
                >(e),
            },
    {
        let ghost evs = events_view(events@);
        let ghost imgs = images_view(images@);
        let mut st = BuildState::new();
        let mut i: usize = 0;
        proof {
            assert(evs.take(0) =~= Seq::<EventView>::empty());
        }
        while i < events.len()
            invariant
                0 <= i <= events@.len(),
                evs == events_view(events@),
                imgs == images_view(images@),
                run_from(evs.take(i as int), imgs, init_state(), 0) == Ok::<
                    BuildStateView,
                    DocError,
                >(st@),
                st.depth <= i,
                st.img_i <= i,
            decreases events@.len() - i,
        {
            let ghost pre = st@;
            let ev = &events[i];
            proof {
                assert((*ev)@ == evs[i as int]);
                lemma_run_snoc(evs, imgs, init_state(), 0, i as int);
            }
            match ev {
                StructuralEvent::ImageStart { url, title } => {
                    let mut loaded: Option<Vec<u8>> = None;
                    if st.img_i < images.len() {
                        match &images[st.img_i] {
                            Some(b) => {
                                loaded = Some(copy_bytes(b));
                                proof {
                                    assert(imgs[pre.img_i as int] == Some(b@));
                                }
                            },
                            None => {
                                proof {
                                    assert(imgs[pre.img_i as int] is None);
                                }
                            },
                        }
                    }
                    match loaded {
                        Some(bytes) => {
                            proof {
                                assert(imgs[pre.img_i as int] == Some(bytes@));
                            }
                            image_step_exec(&mut st, bytes, url, title);
                            proof {
                                assert(step(pre, evs[i as int], imgs) == Ok::<
                                    BuildStateView,
                                    DocError,
                                >(st@));
                            }
                        },
                        None => {
                            proof {
                                assert(!(pre.img_i < imgs.len() && imgs[pre.img_i as int] is Some));
                                assert(step(pre, evs[i as int], imgs) == Err::<
                                    BuildStateView,
                                    DocError,
                                >(DocError::ImageLoadFailed));
                                lemma_run_err(
                                    evs,
                                    imgs,
                                    init_state(),
                                    0,
                                    i + 1,
                                    DocError::ImageLoadFailed,
                                );
                            }
                            return Err(DocError::ImageLoadFailed);
                        },
                    }
                },
                _ => {
                    match apply_event(&mut st, ev) {
                        Ok(()) => {
                            proof {
                                assert(step(pre, evs[i as int], imgs) == Ok::<
                                    BuildStateView,
                                    DocError,
                                >(st@));
                            }
                        },
                        Err(e) => {
                            proof {
                                assert(step(pre, evs[i as int], imgs) == Err::<
                                    BuildStateView,
                                    DocError,
                                >(e));
                                lemma_run_err(evs, imgs, init_state(), 0, i + 1, e);
                            }
                            return Err(e);
                        },
                    }
                },
            }
            proof {
                lemma_step_bounds(pre, evs[i as int], imgs, st@);
            }
            i = i + 1;
        }
        proof {
            assert(evs.take(events@.len() as int) =~= evs);
        }
        let ghost stv = st@;
        let BuildState { body, .. } = st;
        let d = Document::new(body);
        proof {
            assert(build_doc_spec(evs, imgs) == Ok::<DocumentView, DocError>(d@));
        }
        Ok(d)
    }

    /// Builds the document tree, resolving image references through the
    /// given loader as they are encountered. The loader's answers are
    /// the only part of the outcome the events alone do not determine:
    /// whatever it answers, the result equals the fold over the events
    /// together with some sequence of image answers, and when the
    /// stream holds no image reference the loader plays no part at all.
    pub fn build<L: ImageLoader>(events: &Vec<StructuralEvent>, loader: &mut L) -> (r: Result<
        Document,
        DocError,
    >)
        ensures
            match r {
                Ok(d) => exists|imgs: Seq<Option<Seq<u8>>>|
                    #[trigger] build_doc_spec(events_view(events@), imgs) == Ok::<
                        DocumentView,
                        DocError,
                    >(d@),
                Err(e) => exists|imgs: Seq<Option<Seq<u8>>>|
                    #[trigger] build_doc_spec(events_view(events@), imgs) == Err::<
                        DocumentView,
                        DocError,
                    >(e),
            },
            !has_image_event(events_view(events@)) ==> (match r {
                Ok(d) => build_doc_spec(events_view(events@), Seq::empty()) == Ok::<
                    DocumentView,
                    DocError,
                >(d@),
                Err(e) => build_doc_spec(events_view(events@), Seq::empty()) == Err::<
                    DocumentView,
                    DocError,
                >(e),
            }),
    {
        let ghost evs = events_view(events@);
        let ghost mut imgs: Seq<Option<Seq<u8>>> = Seq::empty();
        let mut st = BuildState::new();
        let mut i: usize = 0;
        proof {
            assert(evs.take(0) =~= Seq::<EventView>::empty());
        }
        while i < events.len()
            invariant
                0 <= i <= events@.len(),
                evs == events_view(events@),
                run_from(evs.take(i as int), imgs, init_state(), 0) == Ok::<
                    BuildStateView,
                    DocError,
                >(st@),
                st.depth <= i,
                st.img_i == imgs.len(),
                imgs.len() <= i,
                !has_image_event(evs.take(i as int)) ==> imgs == Seq::<Option<Seq<u8>>>::empty(),
            decreases events@.len() - i,
        {
            let ghost pre = st@;
            let ghost imgs0 = imgs;
            let ev = &events[i];
            proof {
                assert((*ev)@ == evs[i as int]);
                lemma_has_image_take(evs, i as int);
            }
            match ev {
                StructuralEvent::ImageStart { url, title } => {
                    proof {
                        assert(evs[i as int] is ImageStart);
                    }
                    let loaded = loader.load(url);
                    proof {
                        let ans: Option<Seq<u8>> = match &loaded {
                            Some(b) => Some(b@),
                            None => None,
                        };
                        imgs = imgs.push(ans);
                        lemma_run_more_images(evs.take(i as int), imgs0, ans, init_state(), 0, pre);
                        lemma_run_snoc(evs, imgs, init_state(), 0, i as int);
                    }
                    match loaded {
                        Some(bytes) => {
                            proof {
                                assert(imgs[pre.img_i as int] == Some(bytes@));
                            }
                            image_step_exec(&mut st, bytes, url, title);
                            proof {
                                assert(step(pre, evs[i as int], imgs) == Ok::<
                                    BuildStateView,
                                    DocError,
                                >(st@));
                            }
                        },
                        None => {
                            proof {
                                assert(imgs[pre.img_i as int] is None);
                                assert(step(pre, evs[i as int], imgs) == Err::<
                                    BuildStateView,
                                    DocError,
                                >(DocError::ImageLoadFailed));
                                lemma_run_err(
                                    evs,
                                    imgs,
                                    init_state(),
                                    0,
                                    i + 1,
                                    DocError::ImageLoadFailed,
                                );
                                assert(build_doc_spec(evs, imgs) == Err::<DocumentView, DocError>(
                                    DocError::ImageLoadFailed,
                                ));
                                assert(has_image_event(evs));
                            }
                            return Err(DocError::ImageLoadFailed);
                        },
                    }
                },
                _ => {
                    match apply_event(&mut st, ev) {
                        Ok(()) => {
                            proof {
                                lemma_run_snoc(evs, imgs, init_state(), 0, i as int);
                                assert(step(pre, evs[i as int], imgs) == Ok::<
                                    BuildStateView,
                                    DocError,
                                >(st@));
                            }
                        },
                        Err(e) => {
                            proof {
                                lemma_run_snoc(evs, imgs, init_state(), 0, i as int);
                                assert(step(pre, evs[i as int], imgs) == Err::<
                                    BuildStateView,
                                    DocError,
                                >(e));
                                lemma_run_err(evs, imgs, init_state(), 0, i + 1, e);
                                assert(build_doc_spec(evs, imgs) == Err::<DocumentView, DocError>(e));
                                if !has_image_event(evs) {
                                    assert(!has_image_event(evs.take(i as int)));
                                    assert(imgs =~= Seq::<Option<Seq<u8>>>::empty());
                                }
                            }
                            return Err(e);
                        },
                    }
                },
            }
            proof {
                lemma_step_bounds(pre, evs[i as int], imgs, st@);
            }
            i = i + 1;
        }
        proof {
            assert(evs.take(events@.len() as int) =~= evs);
        }
        let ghost stv = st@;
        let ghost gimgs = imgs;
        let BuildState { body, .. } = st;
        let d = Document::new(body);
        proof {
            assert(build_doc_spec(evs, gimgs) == Ok::<DocumentView, DocError>(d@));
            if !has_image_event(evs) {
                assert(!has_image_event(evs.take(events@.len() as int)));
                assert(gimgs =~= Seq::<Option<Seq<u8>>>::empty());
            }
        }
        Ok(d)
    }
}

} // verus!
