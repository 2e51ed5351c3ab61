//! The mathematical model of tree lowering: each element maps to an
//! output AST node, while a counter numbers the images saved along the
//! way, in traversal order, starting at one for every fresh pass.
use vstd::prelude::*;

use crate::model::DocumentView;
use crate::model::ElementView;
use crate::model::ListItemView;
use crate::model::TableCellView;
use crate::model::TableHeaderView;
use crate::model::TableRowView;

verus! {

/// The output AST consumed by a downstream serializer.
#[verifier::ext_equal]
pub enum MdNodeView {
    Document { children: Seq<MdNodeView> },
    Text { text: Seq<char> },
    Heading { level: u8, children: Seq<MdNodeView> },
    Paragraph { children: Seq<MdNodeView> },
    List { numbered: bool, children: Seq<MdNodeView> },
    Item { children: Seq<MdNodeView> },
    Image { url: Seq<char>, title: Seq<char> },
    Link { url: Seq<char>, title: Seq<char>, children: Seq<MdNodeView> },
    Table { children: Seq<MdNodeView> },
    TableRow { header: bool, children: Seq<MdNodeView> },
    TableCell { children: Seq<MdNodeView> },
}

/// Whether `suffix` ends `s`.
pub open spec fn has_suffix(s: Seq<char>, suffix: Seq<char>) -> bool {
    suffix.len() <= s.len() && s.subrange(s.len() - suffix.len(), s.len() as int) == suffix
}

/// The output file extension derived from the stored image reference;
/// portable raster formats keep their own extension, anything else is
/// written as PNG.
pub open spec fn ext_view(ty: Seq<char>) -> Seq<char> {
    if has_suffix(ty, ".jpeg"@) {
        ".jpeg"@
    } else if has_suffix(ty, ".jpg"@) {
        ".jpg"@
    } else if has_suffix(ty, ".gif"@) {
        ".gif"@
    } else {
        ".png"@
    }
}

/// One decimal digit as characters.
pub open spec fn dec_digit(d: nat) -> Seq<char> {
    if d == 0 {
        "0"@
    } else if d == 1 {
        "1"@
    } else if d == 2 {
        "2"@
    } else if d == 3 {
        "3"@
    } else if d == 4 {
        "4"@
    } else if d == 5 {
        "5"@
    } else if d == 6 {
        "6"@
    } else if d == 7 {
        "7"@
    } else if d == 8 {
        "8"@
    } else {
        "9"@
    }
}

/// The decimal notation of a number.
pub open spec fn dec_str(n: nat) -> Seq<char>
    decreases n,
{
    if n < 10 {
        dec_digit(n)
    } else {
        dec_str(n / 10) + dec_digit(n % 10)
    }
}

/// The generated output filename of the `n`-th saved image.
pub open spec fn filename_view(n: nat, ty: Seq<char>) -> Seq<char> {
    "image"@ + dec_str(n) + ext_view(ty)
}

/// Lowers one element. `n` is the number of images already saved; the
/// result carries the node and the updated count.
pub open spec fn lower_el(e: ElementView, n: nat) -> (MdNodeView, nat)
    decreases e, 0nat,
{
    match e {
        ElementView::Text { text, .. } => (MdNodeView::Text { text }, n),
        ElementView::Header { level, text } => (
            MdNodeView::Heading { level, children: seq![MdNodeView::Text { text }] },
            n,
        ),
        ElementView::Paragraph { elements } => {
            let (cs, n2) = lower_els(elements, 0, n);
            (MdNodeView::Paragraph { children: cs }, n2)
        },
        ElementView::List { elements, numbered } => {
            let (cs, n2) = lower_items(elements, 0, n);
            (MdNodeView::List { numbered, children: cs }, n2)
        },
        ElementView::Image(d) => {
            let n2 = n + 1;
            (
                MdNodeView::Paragraph {
                    children: seq![
                        MdNodeView::Image {
                            url: filename_view(n2, d.image_type),
                            title: d.title,
                        },
                    ],
                },
                n2,
            )
        },
        ElementView::Hyperlink { title, url, alt, .. } => (
            MdNodeView::Link { url, title: alt, children: seq![MdNodeView::Text { text: title }] },
            n,
        ),
        ElementView::Table { headers, rows } => {
            let (hcells, n2) = lower_headers(headers, 0, n);
            let (rrows, n3) = lower_rows(rows, 0, n2);
            (
                MdNodeView::Table {
                    children: seq![
                        MdNodeView::TableRow { header: true, children: hcells },
                    ] + rrows,
                },
                n3,
            )
        },
    }
}

/// Lowers `els[i..]` in order, threading the image count.
pub open spec fn lower_els(els: Seq<ElementView>, i: int, n: nat) -> (Seq<MdNodeView>, nat)
    decreases els, els.len() - i,
{
    if i < 0 || i >= els.len() {
        (Seq::empty(), n)
    } else {
        let (c, n2) = lower_el(els[i], n);
        let (rest, n3) = lower_els(els, i + 1, n2);
        (seq![c] + rest, n3)
    }
}

/// Lowers the items of a list: each lowered child is appended to its
/// item node directly when it is itself a list or a paragraph, and is
/// wrapped in an implicit paragraph otherwise.
pub open spec fn lower_items(items: Seq<ListItemView>, i: int, n: nat) -> (Seq<MdNodeView>, nat)
    decreases items, items.len() - i,
{
    if i < 0 || i >= items.len() {
        (Seq::empty(), n)
    } else {
        let (c, n2) = lower_el(items[i].element, n);
        let wrapped = if c is List || c is Paragraph {
            c
        } else {
            MdNodeView::Paragraph { children: seq![c] }
        };
        let (rest, n3) = lower_items(items, i + 1, n2);
        (seq![MdNodeView::Item { children: seq![wrapped] }] + rest, n3)
    }
}

/// Lowers the header cells of a table.
pub open spec fn lower_headers(hs: Seq<TableHeaderView>, i: int, n: nat) -> (Seq<MdNodeView>, nat)
    decreases hs, hs.len() - i,
{
    if i < 0 || i >= hs.len() {
        (Seq::empty(), n)
    } else {
        let (c, n2) = lower_el(hs[i].element, n);
        let (rest, n3) = lower_headers(hs, i + 1, n2);
        (seq![MdNodeView::TableCell { children: seq![c] }] + rest, n3)
    }
}

/// Lowers the cells of one table row.
pub open spec fn lower_cells(cells: Seq<TableCellView>, i: int, n: nat) -> (Seq<MdNodeView>, nat)
    decreases cells, cells.len() - i,
{
    if i < 0 || i >= cells.len() {
        (Seq::empty(), n)
    } else {
        let (c, n2) = lower_el(cells[i].element, n);
        let (rest, n3) = lower_cells(cells, i + 1, n2);
        (seq![MdNodeView::TableCell { children: seq![c] }] + rest, n3)
    }
}

/// Lowers the data rows of a table.
pub open spec fn lower_rows(rows: Seq<TableRowView>, i: int, n: nat) -> (Seq<MdNodeView>, nat)
    decreases rows, rows.len() - i,
{
    if i < 0 || i >= rows.len() {
        (Seq::empty(), n)
    } else {
        let (cs, n2) = lower_cells(rows[i].cells, 0, n);
        let (rest, n3) = lower_rows(rows, i + 1, n2);
        (seq![MdNodeView::TableRow { header: false, children: cs }] + rest, n3)
    }
}

/// Lowers a whole document: page header, body and page footer in that
/// order, under one document node, with the image count starting at
/// zero for every fresh pass.
pub open spec fn lower_doc(d: DocumentView) -> (MdNodeView, nat) {
    let (c1, n1) = lower_els(d.page_header, 0, 0);
    let (c2, n2) = lower_els(d.elements, 0, n1);
    let (c3, n3) = lower_els(d.page_footer, 0, n2);
    (MdNodeView::Document { children: c1 + c2 + c3 }, n3)
}

/// The image count never decreases while lowering an element.
pub proof fn lemma_lower_el_mono(e: ElementView, n: nat)
    ensures
        lower_el(e, n).1 >= n,
    decreases e, 0nat,
{
    match e {
        ElementView::Paragraph { elements } => {
            lemma_lower_els_mono(elements, 0, n);
        },
        ElementView::List { elements, .. } => {
            lemma_lower_items_mono(elements, 0, n);
        },
        ElementView::Table { headers, rows } => {
            lemma_lower_headers_mono(headers, 0, n);
            lemma_lower_rows_mono(rows, 0, lower_headers(headers, 0, n).1);
        },
        _ => {},
    }
}

/// The image count never decreases while lowering a slice of elements.
pub proof fn lemma_lower_els_mono(els: Seq<ElementView>, i: int, n: nat)
    ensures
        lower_els(els, i, n).1 >= n,
    decreases els, els.len() - i,
{
    if 0 <= i < els.len() {
        lemma_lower_el_mono(els[i], n);
        lemma_lower_els_mono(els, i + 1, lower_el(els[i], n).1);
    }
}

/// The image count never decreases while lowering list items.
pub proof fn lemma_lower_items_mono(items: Seq<ListItemView>, i: int, n: nat)
    ensures
        lower_items(items, i, n).1 >= n,
    decreases items, items.len() - i,
{
    if 0 <= i < items.len() {
        lemma_lower_el_mono(items[i].element, n);
        lemma_lower_items_mono(items, i + 1, lower_el(items[i].element, n).1);
    }
}

/// The image count never decreases while lowering table headers.
pub proof fn lemma_lower_headers_mono(hs: Seq<TableHeaderView>, i: int, n: nat)
    ensures
        lower_headers(hs, i, n).1 >= n,
    decreases hs, hs.len() - i,
{
    if 0 <= i < hs.len() {
        lemma_lower_el_mono(hs[i].element, n);
        lemma_lower_headers_mono(hs, i + 1, lower_el(hs[i].element, n).1);
    }
}

/// The image count never decreases while lowering table cells.
pub proof fn lemma_lower_cells_mono(cells: Seq<TableCellView>, i: int, n: nat)
    ensures
        lower_cells(cells, i, n).1 >= n,
    decreases cells, cells.len() - i,
{
    if 0 <= i < cells.len() {
        lemma_lower_el_mono(cells[i].element, n);
        lemma_lower_cells_mono(cells, i + 1, lower_el(cells[i].element, n).1);
    }
}

/// The image count never decreases while lowering table rows.
pub proof fn lemma_lower_rows_mono(rows: Seq<TableRowView>, i: int, n: nat)
    ensures
        lower_rows(rows, i, n).1 >= n,
    decreases rows, rows.len() - i,
{
    if 0 <= i < rows.len() {
        lemma_lower_cells_mono(rows[i].cells, 0, n);
        lemma_lower_rows_mono(rows, i + 1, lower_cells(rows[i].cells, 0, n).1);
    }
}

} // verus!
