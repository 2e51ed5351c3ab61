//! The round-trip law: over documents made of headers, paragraphs of
//! text runs, single-level lists of text items, and tables of text
//! cells, the builder restores the document exactly from its canonical
//! event stream — the stream a tokenizer produces for the text the
//! lowering pass writes out.
use vstd::prelude::*;

use crate::builder_spec::BuildStateView;
use crate::builder_spec::TableStateView;
use crate::builder_spec::build_spec;
use crate::builder_spec::init_state;
use crate::builder_spec::run_from;
use crate::builder_spec::step;
use crate::events::EventView;
use crate::model::DocError;
use crate::model::ElementView;
use crate::model::ListItemView;
use crate::model::TableCellView;
use crate::model::TableHeaderView;
use crate::model::TableRowView;

verus! {

/// A plain text run, as paragraphs, list items and table cells carry
/// it.
pub open spec fn plain(e: ElementView) -> bool {
    e matches ElementView::Text { size: 14, .. }
}

/// The text of a plain text run.
pub open spec fn text_of(e: ElementView) -> Seq<char> {
    match e {
        ElementView::Text { text, .. } => text,
        _ => arbitrary(),
    }
}

/// The restricted class of elements the round-trip law speaks about:
/// headers, paragraphs of text runs, single-level lists of text items,
/// and tables of text cells whose header row is not empty and whose
/// rows are all exactly as wide as the header row.
pub open spec fn fragment_el(e: ElementView) -> bool {
    match e {
        ElementView::Header { .. } => true,
        ElementView::Paragraph { elements } => forall|i: int|
            0 <= i < elements.len() ==> plain(#[trigger] elements[i]),
        ElementView::List { elements, .. } => forall|i: int|
            0 <= i < elements.len() ==> plain((#[trigger] elements[i]).element),
        ElementView::Table { headers, rows } => {
            &&& headers.len() >= 1
            &&& forall|i: int|
                0 <= i < headers.len() ==> plain((#[trigger] headers[i]).element) && headers[i].width
                    == 30
            &&& forall|j: int|
                0 <= j < rows.len() ==> (#[trigger] rows[j]).cells.len() == headers.len()
            &&& forall|j: int, k: int|
                0 <= j < rows.len() && 0 <= k < rows[j].cells.len() ==> plain(
                    (#[trigger] rows[j].cells[k]).element,
                )
        },
        _ => false,
    }
}

/// A document body within the restricted class.
pub open spec fn fragment(els: Seq<ElementView>) -> bool {
    forall|i: int| 0 <= i < els.len() ==> fragment_el(#[trigger] els[i])
}

/// One text event per text run of `els[i..]`.
pub open spec fn text_events(els: Seq<ElementView>, i: int) -> Seq<EventView>
    decreases els.len() - i,
{
    if i < 0 || i >= els.len() {
        Seq::empty()
    } else {
        seq![EventView::Text { text: text_of(els[i]) }] + text_events(els, i + 1)
    }
}

/// An item-start and a text event per list item of `items[i..]`.
pub open spec fn item_events(items: Seq<ListItemView>, i: int) -> Seq<EventView>
    decreases items.len() - i,
{
    if i < 0 || i >= items.len() {
        Seq::empty()
    } else {
        seq![EventView::ItemStart, EventView::Text { text: text_of(items[i].element) }]
            + item_events(items, i + 1)
    }
}

/// One text event per header cell of `hs[i..]`.
pub open spec fn header_events(hs: Seq<TableHeaderView>, i: int) -> Seq<EventView>
    decreases hs.len() - i,
{
    if i < 0 || i >= hs.len() {
        Seq::empty()
    } else {
        seq![EventView::Text { text: text_of(hs[i].element) }] + header_events(hs, i + 1)
    }
}

/// One text event per cell of `cells[i..]`.
pub open spec fn cell_events(cells: Seq<TableCellView>, i: int) -> Seq<EventView>
    decreases cells.len() - i,
{
    if i < 0 || i >= cells.len() {
        Seq::empty()
    } else {
        seq![EventView::Text { text: text_of(cells[i].element) }] + cell_events(cells, i + 1)
    }
}

/// The cell text events of all rows of `rows[i..]`, in order.
pub open spec fn row_events(rows: Seq<TableRowView>, i: int) -> Seq<EventView>
    decreases rows.len() - i,
{
    if i < 0 || i >= rows.len() {
        Seq::empty()
    } else {
        cell_events(rows[i].cells, 0) + row_events(rows, i + 1)
    }
}

/// The canonical event stream of one element.
pub open spec fn events_for_el(e: ElementView) -> Seq<EventView> {
    match e {
        ElementView::Header { level, text } => seq![
            EventView::HeadingStart { level },
            EventView::Text { text },
            EventView::HeadingEnd,
        ],
        ElementView::Paragraph { elements } => seq![EventView::ParagraphStart] + text_events(
            elements,
            0,
        ) + seq![EventView::ParagraphEnd],
        ElementView::List { elements, numbered } => seq![EventView::ListStart { numbered }]
            + item_events(elements, 0) + seq![EventView::ListEnd],
        ElementView::Table { headers, rows } => seq![
            EventView::TableStart,
            EventView::TableHeadStart,
        ] + header_events(headers, 0) + seq![EventView::TableHeadEnd] + row_events(rows, 0) + seq![
            EventView::TableEnd,
        ],
        _ => Seq::empty(),
    }
}

/// The canonical event stream of a document body.
pub open spec fn events_for(els: Seq<ElementView>, i: int) -> Seq<EventView>
    decreases els.len() - i,
{
    if i < 0 || i >= els.len() {
        Seq::empty()
    } else {
        events_for_el(els[i]) + events_for(els, i + 1)
    }
}

/// The fold written over the head of the stream, the form the proofs
/// below induct on.
pub open spec fn run_all(
    evs: Seq<EventView>,
    imgs: Seq<Option<Seq<u8>>>,
    st: BuildStateView,
) -> Result<BuildStateView, DocError>
    decreases evs.len(),
{
    if evs.len() == 0 {
        Ok(st)
    } else {
        match step(st, evs[0], imgs) {
            Ok(s2) => run_all(evs.drop_first(), imgs, s2),
            Err(e) => Err(e),
        }
    }
}

/// `run_all` agrees with the builder's indexed fold.
pub proof fn lemma_run_all_eq(
    evs: Seq<EventView>,
    imgs: Seq<Option<Seq<u8>>>,
    st: BuildStateView,
    i: int,
)
    requires
        0 <= i <= evs.len(),
    ensures
        run_from(evs, imgs, st, i) == run_all(evs.skip(i), imgs, st),
    decreases evs.len() - i,
{
    if i < evs.len() {
        assert(evs.skip(i)[0] == evs[i]);
        assert(evs.skip(i).drop_first() =~= evs.skip(i + 1));
        match step(st, evs[i], imgs) {
            Ok(s2) => {
                lemma_run_all_eq(evs, imgs, s2, i + 1);
            },
            Err(e) => {},
        }
    } else {
        assert(evs.skip(i) =~= Seq::<EventView>::empty());
    }
}

/// Folding over a concatenation is folding over the parts in turn.
pub proof fn lemma_run_all_append(
    a: Seq<EventView>,
    b: Seq<EventView>,
    imgs: Seq<Option<Seq<u8>>>,
    st: BuildStateView,
)
    ensures
        run_all(a + b, imgs, st) == (match run_all(a, imgs, st) {
            Ok(s) => run_all(b, imgs, s),
            Err(e) => Err(e),
        }),
    decreases a.len(),
{
    if a.len() == 0 {
        assert(a + b =~= b);
    } else {
        assert((a + b)[0] == a[0]);
        assert((a + b).drop_first() =~= a.drop_first() + b);
        match step(st, a[0], imgs) {
            Ok(s2) => {
                lemma_run_all_append(a.drop_first(), b, imgs, s2);
            },
            Err(e) => {},
        }
    }
}

/// A builder state with no open scope, no open table and no nesting.
pub open spec fn neutral(st: BuildStateView) -> bool {
    st.current is None && st.depth == 0 && st.table is None
}

/// Feeding a paragraph's text events appends one text run each to the
/// open paragraph.
proof fn lemma_para_texts(
    els: Seq<ElementView>,
    i: int,
    imgs: Seq<Option<Seq<u8>>>,
    st: BuildStateView,
    acc: Seq<ElementView>,
)
    requires
        0 <= i <= els.len(),
        forall|k: int| 0 <= k < els.len() ==> plain(#[trigger] els[k]),
        st.current == Some(ElementView::Paragraph { elements: acc }),
        st.depth == 0,
        st.table is None,
    ensures
        run_all(text_events(els, i), imgs, st) == Ok::<BuildStateView, DocError>(
            BuildStateView {
                current: Some(ElementView::Paragraph { elements: acc + els.subrange(i, els.len() as int) }),
                ..st
            },
        ),
    decreases els.len() - i,
{
    if i >= els.len() {
        assert(acc + els.subrange(i, els.len() as int) =~= acc);
        assert(BuildStateView {
            current: Some(ElementView::Paragraph { elements: acc + els.subrange(i, els.len() as int) }),
            ..st
        } =~= st);
    } else {
        let t = text_of(els[i]);
        let evs = text_events(els, i);
        assert(evs[0] == EventView::Text { text: t });
        assert(evs.drop_first() =~= text_events(els, i + 1));
        assert(ElementView::Text { text: t, size: 14 } == els[i]);
        let st2 = BuildStateView {
            current: Some(ElementView::Paragraph { elements: acc.push(els[i]) }),
            ..st
        };
        assert(step(st, evs[0], imgs) == Ok::<BuildStateView, DocError>(st2));
        lemma_para_texts(els, i + 1, imgs, st2, acc.push(els[i]));
        assert(acc.push(els[i]) + els.subrange(i + 1, els.len() as int) =~= acc + els.subrange(
            i,
            els.len() as int,
        ));
    }
}

/// Feeding a list's item events appends one text item each to the open
/// single-level list.
proof fn lemma_list_items(
    items: Seq<ListItemView>,
    i: int,
    imgs: Seq<Option<Seq<u8>>>,
    st: BuildStateView,
    acc: Seq<ListItemView>,
    numbered: bool,
)
    requires
        0 <= i <= items.len(),
        forall|k: int| 0 <= k < items.len() ==> plain((#[trigger] items[k]).element),
        st.current == Some(ElementView::List { elements: acc, numbered }),
        st.depth == 1,
        st.table is None,
    ensures
        run_all(item_events(items, i), imgs, st) == Ok::<BuildStateView, DocError>(
            BuildStateView {
                current: Some(
                    ElementView::List {
                        elements: acc + items.subrange(i, items.len() as int),
                        numbered,
                    },
                ),
                ..st
            },
        ),
    decreases items.len() - i,
{
    if i >= items.len() {
        assert(acc + items.subrange(i, items.len() as int) =~= acc);
        assert(BuildStateView {
            current: Some(
                ElementView::List {
                    elements: acc + items.subrange(i, items.len() as int),
                    numbered,
                },
            ),
            ..st
        } =~= st);
    } else {
        let t = text_of(items[i].element);
        let evs = item_events(items, i);
        assert(evs[0] == EventView::ItemStart);
        assert(evs.drop_first()[0] == EventView::Text { text: t });
        assert(evs.drop_first().drop_first() =~= item_events(items, i + 1));
        // The item-start event pushes a placeholder text item.
        let ph = ListItemView { element: ElementView::Text { text: Seq::empty(), size: 14 } };
        let st2 = BuildStateView {
            current: Some(ElementView::List { elements: acc.push(ph), numbered }),
            ..st
        };
        assert(step(st, evs[0], imgs) == Ok::<BuildStateView, DocError>(st2));
        // The text event fills the placeholder in.
        assert(ElementView::Text { text: Seq::empty() + t, size: 14 } == items[i].element) by {
            assert(Seq::empty() + t =~= t);
        }
        let st3 = BuildStateView {
            current: Some(ElementView::List { elements: acc.push(items[i]), numbered }),
            ..st
        };
        assert(step(st2, evs.drop_first()[0], imgs) == Ok::<BuildStateView, DocError>(st3)) by {
            assert(acc.push(ph).update(acc.len() as int, ListItemView { element: items[i].element })
                =~= acc.push(items[i]));
        }
        assert(run_all(evs, imgs, st) == run_all(evs.drop_first(), imgs, st2));
        assert(run_all(evs.drop_first(), imgs, st2) == run_all(item_events(items, i + 1), imgs, st3));
        lemma_list_items(items, i + 1, imgs, st3, acc.push(items[i]), numbered);
        assert(acc.push(items[i]) + items.subrange(i + 1, items.len() as int) =~= acc
            + items.subrange(i, items.len() as int));
    }
}

/// Feeding the header texts appends one header cell each to the open
/// table's header row.
proof fn lemma_header_texts(
    hs: Seq<TableHeaderView>,
    i: int,
    imgs: Seq<Option<Seq<u8>>>,
    st: BuildStateView,
    acc: Seq<TableHeaderView>,
)
    requires
        0 <= i <= hs.len(),
        forall|k: int|
            0 <= k < hs.len() ==> plain((#[trigger] hs[k]).element) && hs[k].width == 30,
        st.current is None,
        st.depth == 0,
        st.table == Some(
            TableStateView { in_header: true, headers: acc, rows: Seq::empty() },
        ),
    ensures
        run_all(header_events(hs, i), imgs, st) == Ok::<BuildStateView, DocError>(
            BuildStateView {
                table: Some(
                    TableStateView {
                        in_header: true,
                        headers: acc + hs.subrange(i, hs.len() as int),
                        rows: Seq::empty(),
                    },
                ),
                ..st
            },
        ),
    decreases hs.len() - i,
{
    if i >= hs.len() {
        assert(acc + hs.subrange(i, hs.len() as int) =~= acc);
        assert(BuildStateView {
            table: Some(
                TableStateView {
                    in_header: true,
                    headers: acc + hs.subrange(i, hs.len() as int),
                    rows: Seq::empty(),
                },
            ),
            ..st
        } =~= st);
    } else {
        let t = text_of(hs[i].element);
        let evs = header_events(hs, i);
        assert(evs[0] == EventView::Text { text: t });
        assert(evs.drop_first() =~= header_events(hs, i + 1));
        assert(TableHeaderView { element: ElementView::Text { text: t, size: 14 }, width: 30 }
            == hs[i]);
        let st2 = BuildStateView {
            table: Some(
                TableStateView { in_header: true, headers: acc.push(hs[i]), rows: Seq::empty() },
            ),
            ..st
        };
        assert(step(st, evs[0], imgs) == Ok::<BuildStateView, DocError>(st2));
        lemma_header_texts(hs, i + 1, imgs, st2, acc.push(hs[i]));
        assert(acc.push(hs[i]) + hs.subrange(i + 1, hs.len() as int) =~= acc + hs.subrange(
            i,
            hs.len() as int,
        ));
    }
}

/// Feeding one row's cell texts appends that row, cell by cell, to the
/// open table whose previous rows are all full.
proof fn lemma_cell_texts(
    cells: Seq<TableCellView>,
    j: int,
    imgs: Seq<Option<Seq<u8>>>,
    st: BuildStateView,
    headers: Seq<TableHeaderView>,
    done: Seq<TableRowView>,
)
    requires
        0 < j <= cells.len(),
        cells.len() == headers.len(),
        forall|k: int| 0 <= k < cells.len() ==> plain((#[trigger] cells[k]).element),
        st.current is None,
        st.depth == 0,
        st.table == Some(
            TableStateView {
                in_header: false,
                headers,
                rows: done.push(TableRowView { cells: cells.subrange(0, j) }),
            },
        ),
    ensures
        run_all(cell_events(cells, j), imgs, st) == Ok::<BuildStateView, DocError>(
            BuildStateView {
                table: Some(
                    TableStateView {
                        in_header: false,
                        headers,
                        rows: done.push(TableRowView { cells }),
                    },
                ),
                ..st
            },
        ),
    decreases cells.len() - j,
{
    if j >= cells.len() {
        assert(cells.subrange(0, j) =~= cells);
        assert(BuildStateView {
            table: Some(
                TableStateView {
                    in_header: false,
                    headers,
                    rows: done.push(TableRowView { cells }),
                },
            ),
            ..st
        } =~= st);
    } else {
        let t = text_of(cells[j].element);
        let evs = cell_events(cells, j);
        assert(evs[0] == EventView::Text { text: t });
        assert(evs.drop_first() =~= cell_events(cells, j + 1));
        assert(TableCellView { element: ElementView::Text { text: t, size: 14 } } == cells[j]);
        let rows0 = done.push(TableRowView { cells: cells.subrange(0, j) });
        // The last row is still short of the header count, so the text
        // extends it.
        assert(rows0.last().cells.len() == j);
        let st2 = BuildStateView {
            table: Some(
                TableStateView {
                    in_header: false,
                    headers,
                    rows: done.push(TableRowView { cells: cells.subrange(0, j + 1) }),
                },
            ),
            ..st
        };
        assert(step(st, evs[0], imgs) == Ok::<BuildStateView, DocError>(st2)) by {
            assert(cells.subrange(0, j).push(cells[j]) =~= cells.subrange(0, j + 1));
            assert(rows0.update(rows0.len() - 1, TableRowView { cells: cells.subrange(0, j + 1) })
                =~= done.push(TableRowView { cells: cells.subrange(0, j + 1) }));
        }
        lemma_cell_texts(cells, j + 1, imgs, st2, headers, done);
    }
}

/// Feeding the cell texts of the remaining rows appends them all, each
/// exactly as wide as the header row.
proof fn lemma_row_texts(
    rows: Seq<TableRowView>,
    i: int,
    imgs: Seq<Option<Seq<u8>>>,
    st: BuildStateView,
    headers: Seq<TableHeaderView>,
    done: Seq<TableRowView>,
)
    requires
        0 <= i <= rows.len(),
        headers.len() >= 1,
        forall|j: int| 0 <= j < rows.len() ==> (#[trigger] rows[j]).cells.len() == headers.len(),
        forall|j: int, k: int|
            0 <= j < rows.len() && 0 <= k < rows[j].cells.len() ==> plain(
                (#[trigger] rows[j].cells[k]).element,
            ),
        forall|j: int| 0 <= j < done.len() ==> (#[trigger] done[j]).cells.len() == headers.len(),
        st.current is None,
        st.depth == 0,
        st.table == Some(TableStateView { in_header: false, headers, rows: done }),
    ensures
        run_all(row_events(rows, i), imgs, st) == Ok::<BuildStateView, DocError>(
            BuildStateView {
                table: Some(
                    TableStateView {
                        in_header: false,
                        headers,
                        rows: done + rows.subrange(i, rows.len() as int),
                    },
                ),
                ..st
            },
        ),
    decreases rows.len() - i,
{
    if i >= rows.len() {
        assert(done + rows.subrange(i, rows.len() as int) =~= done);
        assert(BuildStateView {
            table: Some(
                TableStateView {
                    in_header: false,
                    headers,
                    rows: done + rows.subrange(i, rows.len() as int),
                },
            ),
            ..st
        } =~= st);
    } else {
        let cells = rows[i].cells;
        let evs = row_events(rows, i);
        assert(evs =~= cell_events(cells, 0) + row_events(rows, i + 1));
        // The first cell text opens a fresh row: the previous rows are
        // all full (or there are none yet).
        assert(cell_events(cells, 0)[0] == EventView::Text { text: text_of(cells[0].element) });
        assert(cell_events(cells, 0).drop_first() =~= cell_events(cells, 1));
        assert(TableCellView { element: ElementView::Text { text: text_of(cells[0].element), size: 14 } }
            == cells[0]);
        let st2 = BuildStateView {
            table: Some(
                TableStateView {
                    in_header: false,
                    headers,
                    rows: done.push(TableRowView { cells: cells.subrange(0, 1) }),
                },
            ),
            ..st
        };
        assert(step(st, cell_events(cells, 0)[0], imgs) == Ok::<BuildStateView, DocError>(st2))
            by {
            assert(seq![cells[0]] =~= cells.subrange(0, 1));
            if done.len() > 0 {
                assert(done.last().cells.len() == headers.len());
            }
        }
        lemma_cell_texts(cells, 1, imgs, st2, headers, done);
        let st3 = BuildStateView {
            table: Some(
                TableStateView { in_header: false, headers, rows: done.push(rows[i]) },
            ),
            ..st
        };
        assert(run_all(cell_events(cells, 0), imgs, st) == Ok::<BuildStateView, DocError>(st3))
            by {
            assert(TableRowView { cells } == rows[i]);
            lemma_run_all_append_one(cell_events(cells, 0), imgs, st);
        }
        lemma_run_all_append(cell_events(cells, 0), row_events(rows, i + 1), imgs, st);
        lemma_row_texts(rows, i + 1, imgs, st3, headers, done.push(rows[i]));
        assert(done.push(rows[i]) + rows.subrange(i + 1, rows.len() as int) =~= done
            + rows.subrange(i, rows.len() as int));
    }
}

/// Unfolds one step of `run_all` for a non-empty stream.
proof fn lemma_run_all_append_one(
    evs: Seq<EventView>,
    imgs: Seq<Option<Seq<u8>>>,
    st: BuildStateView,
)
    requires
        evs.len() > 0,
    ensures
        run_all(evs, imgs, st) == (match step(st, evs[0], imgs) {
            Ok(s2) => run_all(evs.drop_first(), imgs, s2),
            Err(e) => Err(e),
        }),
{
}

/// Building the canonical events of one fragment element from a
/// neutral state seals exactly that element onto the body.
#[verifier::rlimit(100)]
#[verifier::spinoff_prover]
proof fn lemma_el_block(e: ElementView, imgs: Seq<Option<Seq<u8>>>, st: BuildStateView)
    requires
        fragment_el(e),
        neutral(st),
    ensures
        run_all(events_for_el(e), imgs, st) == Ok::<BuildStateView, DocError>(
            BuildStateView { body: st.body.push(e), ..st },
        ),
{
    match e {
        ElementView::Header { level, text } => {
            let evs = events_for_el(e);
            let st1 = BuildStateView {
                current: Some(ElementView::Header { level, text: Seq::empty() }),
                ..st
            };
            assert(step(st, evs[0], imgs) == Ok::<BuildStateView, DocError>(st1));
            let st2 = BuildStateView {
                current: Some(ElementView::Header { level, text: Seq::empty() + text }),
                ..st
            };
            assert(step(st1, evs[1], imgs) == Ok::<BuildStateView, DocError>(st2));
            assert(Seq::empty() + text =~= text);
            let st3 = BuildStateView { body: st.body.push(e), current: None, ..st };
            assert(step(st2, evs[2], imgs) == Ok::<BuildStateView, DocError>(st3));
            assert(evs.drop_first()[0] == evs[1]);
            assert(evs.drop_first().drop_first()[0] == evs[2]);
            assert(evs.drop_first().drop_first().drop_first()
                =~= Seq::<EventView>::empty());
            assert(run_all(evs.drop_first().drop_first().drop_first(), imgs, st3)
                == Ok::<BuildStateView, DocError>(st3));
            assert(run_all(evs.drop_first().drop_first(), imgs, st2)
                == Ok::<BuildStateView, DocError>(st3));
            assert(run_all(evs.drop_first(), imgs, st1) == Ok::<BuildStateView, DocError>(st3));
            assert(run_all(evs, imgs, st) == Ok::<BuildStateView, DocError>(st3));
            assert(st3 =~= BuildStateView { body: st.body.push(e), ..st });
        },
        ElementView::Paragraph { elements } => {
            let a = seq![EventView::ParagraphStart];
            let b = text_events(elements, 0);
            let c = seq![EventView::ParagraphEnd];
            assert(events_for_el(e) == a + b + c);
            let st1 = BuildStateView {
                current: Some(ElementView::Paragraph { elements: Seq::empty() }),
                ..st
            };
            assert(step(st, a[0], imgs) == Ok::<BuildStateView, DocError>(st1));
            assert(a.drop_first() =~= Seq::<EventView>::empty());
            assert(run_all(a.drop_first(), imgs, st1) == Ok::<BuildStateView, DocError>(st1));
            assert(run_all(a, imgs, st) == Ok::<BuildStateView, DocError>(st1));
            lemma_para_texts(elements, 0, imgs, st1, Seq::empty());
            let full = Seq::empty() + elements.subrange(0, elements.len() as int);
            assert(full =~= elements);
            let st2 = BuildStateView {
                current: Some(ElementView::Paragraph { elements }),
                ..st
            };
            assert(run_all(b, imgs, st1) == Ok::<BuildStateView, DocError>(st2));
            let st3 = BuildStateView { body: st.body.push(e), current: None, ..st };
            assert(step(st2, c[0], imgs) == Ok::<BuildStateView, DocError>(st3));
            assert(c.drop_first() =~= Seq::<EventView>::empty());
            assert(run_all(c.drop_first(), imgs, st3) == Ok::<BuildStateView, DocError>(st3));
            assert(run_all(c, imgs, st2) == Ok::<BuildStateView, DocError>(st3));
            lemma_run_all_append(a + b, c, imgs, st);
            lemma_run_all_append(a, b, imgs, st);
            assert((a + b) + c =~= a + b + c);
            assert(st3 =~= BuildStateView { body: st.body.push(e), ..st });
        },
        ElementView::List { elements, numbered } => {
            let a = seq![EventView::ListStart { numbered }];
            let b = item_events(elements, 0);
            let c = seq![EventView::ListEnd];
            assert(events_for_el(e) == a + b + c);
            let st1 = BuildStateView {
                current: Some(ElementView::List { elements: Seq::empty(), numbered }),
                depth: 1,
                ..st
            };
            assert(step(st, a[0], imgs) == Ok::<BuildStateView, DocError>(st1));
            assert(a.drop_first() =~= Seq::<EventView>::empty());
            assert(run_all(a.drop_first(), imgs, st1) == Ok::<BuildStateView, DocError>(st1));
            assert(run_all(a, imgs, st) == Ok::<BuildStateView, DocError>(st1));
            lemma_list_items(elements, 0, imgs, st1, Seq::empty(), numbered);
            let full = Seq::empty() + elements.subrange(0, elements.len() as int);
            assert(full =~= elements);
            let st2 = BuildStateView {
                current: Some(ElementView::List { elements, numbered }),
                depth: 1,
                ..st
            };
            assert(run_all(b, imgs, st1) == Ok::<BuildStateView, DocError>(st2));
            let st3 = BuildStateView { body: st.body.push(e), current: None, depth: 0, ..st };
            assert(step(st2, c[0], imgs) == Ok::<BuildStateView, DocError>(st3));
            assert(c.drop_first() =~= Seq::<EventView>::empty());
            assert(run_all(c.drop_first(), imgs, st3) == Ok::<BuildStateView, DocError>(st3));
            assert(run_all(c, imgs, st2) == Ok::<BuildStateView, DocError>(st3));
            lemma_run_all_append(a + b, c, imgs, st);
            lemma_run_all_append(a, b, imgs, st);
            assert((a + b) + c =~= a + b + c);
            assert(st3 =~= BuildStateView { body: st.body.push(e), ..st });
        },
        ElementView::Table { headers, rows } => {
            let a = seq![EventView::TableStart, EventView::TableHeadStart];
            let b = header_events(headers, 0);
            let c = seq![EventView::TableHeadEnd];
            let d = row_events(rows, 0);
            let f = seq![EventView::TableEnd];
            assert(events_for_el(e) == a + b + c + d + f);
            let st1 = BuildStateView {
                table: Some(
                    TableStateView {
                        in_header: true,
                        headers: Seq::empty(),
                        rows: Seq::empty(),
                    },
                ),
                ..st
            };
            let stmid = BuildStateView {
                table: Some(
                    TableStateView {
                        in_header: false,
                        headers: Seq::empty(),
                        rows: Seq::empty(),
                    },
                ),
                ..st
            };
            assert(step(st, a[0], imgs) == Ok::<BuildStateView, DocError>(stmid));
            assert(a.drop_first()[0] == EventView::TableHeadStart);
            assert(step(stmid, a.drop_first()[0], imgs) == Ok::<BuildStateView, DocError>(st1));
            assert(a.drop_first().drop_first() =~= Seq::<EventView>::empty());
            assert(run_all(a.drop_first().drop_first(), imgs, st1) == Ok::<
                BuildStateView,
                DocError,
            >(st1));
            assert(run_all(a.drop_first(), imgs, stmid) == Ok::<BuildStateView, DocError>(st1));
            assert(run_all(a, imgs, st) == Ok::<BuildStateView, DocError>(st1));
            lemma_header_texts(headers, 0, imgs, st1, Seq::empty());
            assert(Seq::empty() + headers.subrange(0, headers.len() as int) =~= headers);
            let st2 = BuildStateView {
                table: Some(
                    TableStateView { in_header: true, headers, rows: Seq::empty() },
                ),
                ..st
            };
            assert(run_all(b, imgs, st1) == Ok::<BuildStateView, DocError>(st2));
            let st3 = BuildStateView {
                table: Some(
                    TableStateView { in_header: false, headers, rows: Seq::empty() },
                ),
                ..st
            };
            assert(step(st2, c[0], imgs) == Ok::<BuildStateView, DocError>(st3));
            assert(c.drop_first() =~= Seq::<EventView>::empty());
            assert(run_all(c.drop_first(), imgs, st3) == Ok::<BuildStateView, DocError>(st3));
            assert(run_all(c, imgs, st2) == Ok::<BuildStateView, DocError>(st3));
            lemma_row_texts(rows, 0, imgs, st3, headers, Seq::empty());
            assert(Seq::empty() + rows.subrange(0, rows.len() as int) =~= rows);
            let st4 = BuildStateView {
                table: Some(TableStateView { in_header: false, headers, rows }),
                ..st
            };
            assert(run_all(d, imgs, st3) == Ok::<BuildStateView, DocError>(st4));
            let st5 = BuildStateView { body: st.body.push(e), table: None, ..st };
            assert(step(st4, f[0], imgs) == Ok::<BuildStateView, DocError>(st5));
            assert(f.drop_first() =~= Seq::<EventView>::empty());
            assert(run_all(f.drop_first(), imgs, st5) == Ok::<BuildStateView, DocError>(st5));
            assert(run_all(f, imgs, st4) == Ok::<BuildStateView, DocError>(st5));
            lemma_run_all_append(a + b + c + d, f, imgs, st);
            lemma_run_all_append(a + b + c, d, imgs, st);
            lemma_run_all_append(a + b, c, imgs, st);
            lemma_run_all_append(a, b, imgs, st);
            assert(((a + b) + c) + d =~= a + b + c + d);
            assert((a + b) + c =~= a + b + c);
            assert((a + b + c + d) + f =~= a + b + c + d + f);
            assert(st5 =~= BuildStateView { body: st.body.push(e), ..st });
        },
        _ => {},
    }
}

/// Building the canonical events of a fragment body from a neutral
/// state appends exactly those elements to the body.
proof fn lemma_fragment_run(
    els: Seq<ElementView>,
    i: int,
    imgs: Seq<Option<Seq<u8>>>,
    st: BuildStateView,
)
    requires
        0 <= i <= els.len(),
        fragment(els),
        neutral(st),
    ensures
        run_all(events_for(els, i), imgs, st) == Ok::<BuildStateView, DocError>(
            BuildStateView { body: st.body + els.subrange(i, els.len() as int), ..st },
        ),
    decreases els.len() - i,
{
    if i >= els.len() {
        assert(st.body + els.subrange(i, els.len() as int) =~= st.body);
        assert(BuildStateView { body: st.body + els.subrange(i, els.len() as int), ..st } =~= st);
    } else {
        lemma_el_block(els[i], imgs, st);
        let st2 = BuildStateView { body: st.body.push(els[i]), ..st };
        lemma_run_all_append(events_for_el(els[i]), events_for(els, i + 1), imgs, st);
        lemma_fragment_run(els, i + 1, imgs, st2);
        assert(st.body.push(els[i]) + els.subrange(i + 1, els.len() as int) =~= st.body
            + els.subrange(i, els.len() as int));
    }
}

/// The round-trip law: over a body of headers, paragraphs of text
/// runs, single-level lists of text items and full-rowed tables of
/// text cells, building the canonical event stream — the stream the
/// lowered output tokenizes back into — restores exactly that body,
/// whatever the image answers, with nothing left open.
pub proof fn lemma_round_trip(els: Seq<ElementView>, imgs: Seq<Option<Seq<u8>>>)
    requires
        fragment(els),
    ensures
        build_spec(events_for(els, 0), imgs) == Ok::<BuildStateView, DocError>(
            BuildStateView {
                body: els,
                current: None,
                depth: 0,
                table: None,
                img_i: 0,
            },
        ),
{
    lemma_fragment_run(els, 0, imgs, init_state());
    lemma_run_all_eq(events_for(els, 0), imgs, init_state(), 0);
    assert(events_for(els, 0).skip(0) =~= events_for(els, 0));
    assert(Seq::<ElementView>::empty() + els.subrange(0, els.len() as int) =~= els);
    assert(BuildStateView {
        body: Seq::<ElementView>::empty() + els.subrange(0, els.len() as int),
        ..init_state()
    } =~= BuildStateView { body: els, current: None, depth: 0, table: None, img_i: 0 });
}

/// The round-trip law at the document level: the builder returns, for
/// the canonical events of a fragment body, exactly the document whose
/// body it is, under default page geometry.
pub proof fn lemma_round_trip_doc(els: Seq<ElementView>, imgs: Seq<Option<Seq<u8>>>)
    requires
        fragment(els),
    ensures
        crate::builder_spec::build_doc_spec(events_for(els, 0), imgs) == Ok::<
            crate::model::DocumentView,
            DocError,
        >(crate::model::default_geometry_view(els)),
{
    lemma_round_trip(els, imgs);
}

} // verus!
