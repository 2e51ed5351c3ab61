//! Laws of the builder that relate several of its functions: how the
//! depth counter mirrors the list events, what an unbalanced stream
//! surfaces, where an inserted item lands, and the shape of built
//! table rows.
use vstd::prelude::*;

use crate::builder_spec::BuildStateView;
use crate::builder_spec::TableStateView;
use crate::builder_spec::build_spec;
use crate::builder_spec::init_state;
use crate::builder_spec::insert_items;
use crate::builder_spec::lemma_run_err;
use crate::builder_spec::lemma_run_snoc;
use crate::builder_spec::run_from;
use crate::builder_spec::step;
use crate::builder_spec::table_text;
use crate::events::EventView;
use crate::model::DocError;
use crate::model::ElementView;
use crate::model::ListItemView;
use crate::model::TableRowView;

verus! {

/// The number of list-start events in `evs[i..]`.
pub open spec fn list_starts(evs: Seq<EventView>, i: int) -> int
    decreases evs.len() - i,
{
    if i < 0 || i >= evs.len() {
        0
    } else {
        (if evs[i] is ListStart {
            1int
        } else {
            0int
        }) + list_starts(evs, i + 1)
    }
}

/// The number of list-end events in `evs[i..]`.
pub open spec fn list_ends(evs: Seq<EventView>, i: int) -> int
    decreases evs.len() - i,
{
    if i < 0 || i >= evs.len() {
        0
    } else {
        (if evs[i] is ListEnd {
            1int
        } else {
            0int
        }) + list_ends(evs, i + 1)
    }
}

/// While the build succeeds, the depth counter changes exactly with the
/// list events: the final depth plus the list ends consumed equals the
/// starting depth plus the list starts consumed.
pub proof fn lemma_run_depth(
    evs: Seq<EventView>,
    imgs: Seq<Option<Seq<u8>>>,
    st: BuildStateView,
    i: int,
    st2: BuildStateView,
)
    requires
        run_from(evs, imgs, st, i) == Ok::<BuildStateView, DocError>(st2),
    ensures
        st2.depth + list_ends(evs, i) == st.depth + list_starts(evs, i),
    decreases evs.len() - i,
{
    if 0 <= i < evs.len() {
        match step(st, evs[i], imgs) {
            Ok(sm) => {
                lemma_run_depth(evs, imgs, sm, i + 1, st2);
            },
            Err(e) => {},
        }
    }
}

/// A prefix of a successful fold is itself successful.
pub proof fn lemma_run_prefix_ok(
    evs: Seq<EventView>,
    imgs: Seq<Option<Seq<u8>>>,
    st: BuildStateView,
    i: int,
    j: int,
)
    requires
        0 <= i <= j <= evs.len(),
        run_from(evs, imgs, st, i) is Ok,
    ensures
        run_from(evs.take(j), imgs, st, i) is Ok,
    decreases j - i,
{
    if i < j {
        assert(evs.take(j)[i] == evs[i]);
        match step(st, evs[i], imgs) {
            Ok(sm) => {
                lemma_run_prefix_ok(evs, imgs, sm, i + 1, j);
            },
            Err(e) => {},
        }
    }
}

/// A successful build consumed balanced list events: no prefix of the
/// stream closes more list scopes than it has opened.
pub proof fn lemma_build_balanced(
    evs: Seq<EventView>,
    imgs: Seq<Option<Seq<u8>>>,
    st: BuildStateView,
)
    requires
        build_spec(evs, imgs) == Ok::<BuildStateView, DocError>(st),
    ensures
        forall|j: int|
            0 <= j <= evs.len() ==> list_ends(#[trigger] evs.take(j), 0) <= list_starts(
                evs.take(j),
                0,
            ),
{
    assert forall|j: int|
        0 <= j <= evs.len() implies list_ends(#[trigger] evs.take(j), 0) <= list_starts(
        evs.take(j),
        0,
    ) by {
        lemma_run_prefix_ok(evs, imgs, init_state(), 0, j);
        let mid = run_from(evs.take(j), imgs, init_state(), 0)->Ok_0;
        lemma_run_depth(evs.take(j), imgs, init_state(), 0, mid);
    }
}

/// An event stream whose list events go unbalanced surfaces
/// `StructuralInvariantViolation`: when a list-end event arrives while
/// every list opened so far has already been closed again, and no
/// earlier event failed, the whole build returns that error — it does
/// not silently corrupt the sequence state.
pub proof fn lemma_unbalanced_list_end(
    evs: Seq<EventView>,
    imgs: Seq<Option<Seq<u8>>>,
    k: int,
    st: BuildStateView,
)
    requires
        0 <= k < evs.len(),
        evs[k] is ListEnd,
        run_from(evs.take(k), imgs, init_state(), 0) == Ok::<BuildStateView, DocError>(st),
        list_ends(evs.take(k), 0) == list_starts(evs.take(k), 0),
    ensures
        build_spec(evs, imgs) == Err::<BuildStateView, DocError>(
            DocError::StructuralInvariantViolation,
        ),
{
    lemma_run_depth(evs.take(k), imgs, init_state(), 0, st);
    assert(st.depth == 0);
    lemma_run_snoc(evs, imgs, init_state(), 0, k);
    assert(run_from(evs.take(k + 1), imgs, init_state(), 0) == Err::<BuildStateView, DocError>(
        DocError::StructuralInvariantViolation,
    ));
    lemma_run_err(evs, imgs, init_state(), 0, k + 1, DocError::StructuralInvariantViolation);
}

/// The items of a list element; arbitrary for any other element.
pub open spec fn list_items_of(e: ElementView) -> Seq<ListItemView> {
    match e {
        ElementView::List { elements, .. } => elements,
        _ => arbitrary(),
    }
}

/// The item sequence reached by descending `n` times into the trailing
/// sub-list, the path along which the builder inserts.
pub open spec fn last_sublist(items: Seq<ListItemView>, n: nat) -> Option<Seq<ListItemView>>
    decreases n,
{
    if n == 0 {
        Some(items)
    } else if items.len() > 0 && items.last().element is List {
        last_sublist(list_items_of(items.last().element), (n - 1) as nat)
    } else {
        None
    }
}

/// A successful insertion places the new element exactly at the
/// requested depth: after `insert_items(items, el, n)`, the trailing
/// sub-list `n` levels down exists and its last item is `el`.
pub proof fn lemma_insert_places_at_depth(
    items: Seq<ListItemView>,
    el: ElementView,
    n: nat,
    items2: Seq<ListItemView>,
)
    requires
        insert_items(items, el, n) == Ok::<Seq<ListItemView>, DocError>(items2),
    ensures
        last_sublist(items2, n) is Some,
        last_sublist(items2, n).unwrap().len() > 0,
        last_sublist(items2, n).unwrap().last().element == el,
    decreases n,
{
    if n == 0 {
    } else {
        let inner = list_items_of(items.last().element);
        let inner2 = insert_items(inner, el, (n - 1) as nat)->Ok_0;
        lemma_insert_places_at_depth(inner, el, (n - 1) as nat, inner2);
        assert(items2.last().element is List);
        assert(list_items_of(items2.last().element) == inner2);
    }
}

/// The total number of cells over `rows[i..]`.
pub open spec fn total_cells(rows: Seq<TableRowView>, i: int) -> int
    decreases rows.len() - i,
{
    if i < 0 || i >= rows.len() {
        0
    } else {
        rows[i].cells.len() + total_cells(rows, i + 1)
    }
}

/// The shape the row-building rule maintains: every row but the last is
/// exactly as wide as the header row, and the last is never wider and
/// never empty.
pub open spec fn rows_wf(rows: Seq<TableRowView>, c: nat) -> bool {
    &&& forall|j: int| 0 <= j < rows.len() - 1 ==> (#[trigger] rows[j]).cells.len() == c
    &&& rows.len() > 0 ==> 1 <= rows.last().cells.len() <= c
}

/// One text fed to an open table outside its header keeps the row
/// shape and adds exactly one cell.
pub proof fn lemma_table_text_wf(ts: TableStateView, t: Seq<char>, c: nat)
    requires
        !ts.in_header,
        ts.headers.len() == c,
        c >= 1,
        rows_wf(ts.rows, c),
    ensures
        rows_wf(table_text(ts, t).rows, c),
        total_cells_all(table_text(ts, t).rows) == total_cells_all(ts.rows) + 1,
        table_text(ts, t).headers == ts.headers,
        !table_text(ts, t).in_header,
        table_text(ts, t).rows.len() >= ts.rows.len(),
{
    let rows2 = table_text(ts, t).rows;
    if ts.rows.len() == 0 {
        lemma_total_cells_push(ts.rows, rows2.last());
    } else if ts.rows.last().cells.len() == ts.headers.len() {
        lemma_total_cells_push(ts.rows, rows2.last());
    } else {
        lemma_total_cells_update_last(ts.rows, rows2.last());
    }
}

/// The total cell count over a whole row sequence.
pub open spec fn total_cells_all(rows: Seq<TableRowView>) -> int {
    total_cells(rows, 0)
}

/// Appending a row adds its cells to the total.
pub proof fn lemma_total_cells_push(rows: Seq<TableRowView>, row: TableRowView)
    ensures
        total_cells_all(rows.push(row)) == total_cells_all(rows) + row.cells.len(),
{
    lemma_total_cells_push_from(rows, row, 0);
}

proof fn lemma_total_cells_push_from(rows: Seq<TableRowView>, row: TableRowView, i: int)
    requires
        0 <= i <= rows.len(),
    ensures
        total_cells(rows.push(row), i) == total_cells(rows, i) + row.cells.len(),
    decreases rows.len() - i,
{
    if i < rows.len() {
        assert(rows.push(row)[i] == rows[i]);
        lemma_total_cells_push_from(rows, row, i + 1);
    } else {
        assert(rows.push(row)[i] == row);
        assert(total_cells(rows.push(row), i + 1) == 0);
    }
}

/// Replacing the last row changes the total by the difference of that
/// row's cells.
pub proof fn lemma_total_cells_update_last(rows: Seq<TableRowView>, row: TableRowView)
    requires
        rows.len() > 0,
    ensures
        total_cells_all(rows.update(rows.len() - 1, row)) == total_cells_all(rows)
            - rows.last().cells.len() + row.cells.len(),
{
    lemma_total_cells_update_last_from(rows, row, 0);
}

proof fn lemma_total_cells_update_last_from(rows: Seq<TableRowView>, row: TableRowView, i: int)
    requires
        rows.len() > 0,
        0 <= i <= rows.len(),
    ensures
        total_cells(rows.update(rows.len() - 1, row), i) == (if i < rows.len() {
            total_cells(rows, i) - rows.last().cells.len() + row.cells.len()
        } else {
            total_cells(rows, i)
        }),
    decreases rows.len() - i,
{
    if i < rows.len() {
        lemma_total_cells_update_last_from(rows, row, i + 1);
    }
}

/// Feeds a sequence of text runs to an open table, one `table_text`
/// step each, as the builder does for text events while a table is
/// open outside its header.
pub open spec fn feed_texts(ts: TableStateView, texts: Seq<Seq<char>>, i: int) -> TableStateView
    decreases texts.len() - i,
{
    if i < 0 || i >= texts.len() {
        ts
    } else {
        feed_texts(table_text(ts, texts[i]), texts, i + 1)
    }
}

/// Feeding texts preserves the row shape and counts every text as one
/// cell.
pub proof fn lemma_feed_texts_wf(ts: TableStateView, texts: Seq<Seq<char>>, i: int, c: nat)
    requires
        0 <= i <= texts.len(),
        !ts.in_header,
        ts.headers.len() == c,
        c >= 1,
        rows_wf(ts.rows, c),
    ensures
        rows_wf(feed_texts(ts, texts, i).rows, c),
        total_cells_all(feed_texts(ts, texts, i).rows) == total_cells_all(ts.rows) + (texts.len()
            - i),
        feed_texts(ts, texts, i).headers == ts.headers,
        !feed_texts(ts, texts, i).in_header,
    decreases texts.len() - i,
{
    if i < texts.len() {
        lemma_table_text_wf(ts, texts[i], c);
        lemma_feed_texts_wf(table_text(ts, texts[i]), texts, i + 1, c);
    }
}

/// The table shape law: a table with `c` header cells, fed a number of
/// body texts divisible by `c`, ends with every row exactly `c` cells
/// wide — each `TableRow` of the built table is as long as its header
/// row.
pub proof fn lemma_table_shape(ts: TableStateView, texts: Seq<Seq<char>>)
    requires
        !ts.in_header,
        ts.headers.len() >= 1,
        ts.rows.len() == 0,
        (texts.len() as int) % (ts.headers.len() as int) == 0,
    ensures
        forall|j: int|
            0 <= j < feed_texts(ts, texts, 0).rows.len() ==> (#[trigger] feed_texts(
                ts,
                texts,
                0,
            ).rows[j]).cells.len() == ts.headers.len(),
{
    let c = ts.headers.len();
    lemma_feed_texts_wf(ts, texts, 0, c);
    let fin = feed_texts(ts, texts, 0);
    assert(total_cells_all(ts.rows) == 0);
    assert(total_cells_all(fin.rows) == texts.len());
    if fin.rows.len() > 0 {
        lemma_full_but_last_total(fin.rows, c);
        let last = fin.rows.last().cells.len() as int;
        assert(total_cells_all(fin.rows) == (fin.rows.len() - 1) * c + last);
        assert(last == texts.len() - (fin.rows.len() - 1) * c);
        assert((texts.len() - (fin.rows.len() - 1) * c) % (c as int) == 0) by {
            vstd::arithmetic::div_mod::lemma_mod_multiples_vanish(
                -(fin.rows.len() - 1),
                texts.len() as int,
                c as int,
            );
            assert((c as int) * (-(fin.rows.len() - 1)) == -((fin.rows.len() - 1) * (c as int)))
                by (nonlinear_arith);
        }
        assert(1 <= last <= c);
        assert(last % (c as int) == 0);
        assert(last == c) by {
            if last < c {
                vstd::arithmetic::div_mod::lemma_small_mod(last as nat, c);
            }
        }
    }
}

/// In a well-shaped row sequence, the total cell count is the full rows
/// times the width plus the last row.
proof fn lemma_full_but_last_total(rows: Seq<TableRowView>, c: nat)
    requires
        rows.len() > 0,
        rows_wf(rows, c),
    ensures
        total_cells_all(rows) == (rows.len() - 1) * c + rows.last().cells.len(),
{
    lemma_full_prefix_total(rows, c, 0);
}

proof fn lemma_full_prefix_total(rows: Seq<TableRowView>, c: nat, i: int)
    requires
        rows.len() > 0,
        rows_wf(rows, c),
        0 <= i <= rows.len(),
    ensures
        total_cells(rows, i) == (if i < rows.len() {
            (rows.len() - 1 - i) * c + rows.last().cells.len()
        } else {
            0
        }),
    decreases rows.len() - i,
{
    if i < rows.len() {
        lemma_full_prefix_total(rows, c, i + 1);
        if i < rows.len() - 1 {
            assert(rows[i].cells.len() == c);
            assert((rows.len() - 1 - i) * c == (rows.len() - 1 - (i + 1)) * c + c)
                by (nonlinear_arith);
        } else {
            assert(rows[i] == rows.last());
            assert((rows.len() - 1 - i) * c == 0) by (nonlinear_arith)
                requires i == rows.len() - 1;
        }
    }
}

} // verus!
