//! The executable tree lowering: recursively converts the canonical
//! document tree into the output AST, saving each embedded image under
//! a generated sequential filename. Proved to agree with `lower_spec`.
use vstd::prelude::*;

use crate::Transformer;
use crate::model::DocError;
use crate::model::Document;
use crate::model::Element;
use crate::model::ListItem;
use crate::model::TableCell;
use crate::model::TableHeader;
use crate::model::TableRow;
use crate::model::elements_view;
use crate::model::items_view;
use crate::model::headers_view;
use crate::model::cells_view;
use crate::model::rows_view;
use crate::lower_spec::MdNodeView;
use crate::lower_spec::dec_digit;
use crate::lower_spec::dec_str;
use crate::lower_spec::ext_view;
use crate::lower_spec::filename_view;
use crate::lower_spec::has_suffix;
use crate::lower_spec::lemma_lower_cells_mono;
use crate::lower_spec::lemma_lower_el_mono;
use crate::lower_spec::lemma_lower_els_mono;
use crate::lower_spec::lemma_lower_headers_mono;
use crate::lower_spec::lemma_lower_items_mono;
use crate::lower_spec::lemma_lower_rows_mono;
use crate::lower_spec::lower_cells;
use crate::lower_spec::lower_doc;
use crate::lower_spec::lower_el;
use crate::lower_spec::lower_els;
use crate::lower_spec::lower_headers;
use crate::lower_spec::lower_items;
use crate::lower_spec::lower_rows;

verus! {

/// Persists the bytes of an embedded image under a generated filename.
/// The default binding of the surrounding application writes to disk;
/// tests substitute in-memory implementations. No behaviour is assumed
/// of it: the lowering is verified for every possible answer.
pub trait ImageSaver {
    /// Stores `bytes` under `filename`; `false` when persisting failed.
    fn save(&mut self, bytes: &Vec<u8>, filename: &String) -> bool;
}

/// One node of the output AST.
#[derive(Debug, PartialEq)]
pub enum MdNode {
    Document { children: Vec<MdNode> },
    Text { text: String },
    Heading { level: u8, children: Vec<MdNode> },
    Paragraph { children: Vec<MdNode> },
    List { numbered: bool, children: Vec<MdNode> },
    Item { children: Vec<MdNode> },
    Image { url: String, title: String },
    Link { url: String, title: String, children: Vec<MdNode> },
    Table { children: Vec<MdNode> },
    TableRow { header: bool, children: Vec<MdNode> },
    TableCell { children: Vec<MdNode> },
}

pub open spec fn md_view(n: MdNode) -> MdNodeView
    decreases n,
{
    match n {
        MdNode::Document { children } => MdNodeView::Document { children: md_seq_view(children@) },
        MdNode::Text { text } => MdNodeView::Text { text: text@ },
        MdNode::Heading { level, children } => MdNodeView::Heading {
            level,
            children: md_seq_view(children@),
        },
        MdNode::Paragraph { children } => MdNodeView::Paragraph {
            children: md_seq_view(children@),
        },
        MdNode::List { numbered, children } => MdNodeView::List {
            numbered,
            children: md_seq_view(children@),
        },
        MdNode::Item { children } => MdNodeView::Item { children: md_seq_view(children@) },
        MdNode::Image { url, title } => MdNodeView::Image { url: url@, title: title@ },
        MdNode::Link { url, title, children } => MdNodeView::Link {
            url: url@,
            title: title@,
            children: md_seq_view(children@),
        },
        MdNode::Table { children } => MdNodeView::Table { children: md_seq_view(children@) },
        MdNode::TableRow { header, children } => MdNodeView::TableRow {
            header,
            children: md_seq_view(children@),
        },
        MdNode::TableCell { children } => MdNodeView::TableCell {
            children: md_seq_view(children@),
        },
    }
}

pub open spec fn md_seq_view(s: Seq<MdNode>) -> Seq<MdNodeView>
    decreases s,
{
    Seq::new(
        s.len(),
        |i: int|
            if 0 <= i < s.len() {
                md_view(s[i])
            } else {
                arbitrary()
            },
    )
}

impl View for MdNode {
    type V = MdNodeView;

    open spec fn view(&self) -> MdNodeView {
        md_view(*self)
    }
}

impl MdNode {
    /// For a table node: the number of its rows, the header row
    /// included. Zero for any other node.
    pub fn num_rows(&self) -> (r: usize)
        ensures
            r as nat == (match (*self)@ {
                MdNodeView::Table { children } => children.len(),
                _ => 0,
            }),
    {
        match self {
            MdNode::Table { children } => children.len(),
            _ => 0,
        }
    }

    /// For a table node: the number of cells of its header row. Zero
    /// for any other node or an empty table.
    pub fn num_columns(&self) -> (r: usize)
        ensures
            r as nat == (match (*self)@ {
                MdNodeView::Table { children } => {
                    if children.len() > 0 {
                        match children[0] {
                            MdNodeView::TableRow { children: cs, .. } => cs.len(),
                            _ => 0,
                        }
                    } else {
                        0
                    }
                },
                _ => 0,
            }),
    {
        match self {
            MdNode::Table { children } => {
                if children.len() > 0 {
                    proof {
                        assert(md_seq_view(children@)[0] == md_view(children@[0]));
                    }
                    match &children[0] {
                        MdNode::TableRow { children: cs, .. } => cs.len(),
                        _ => 0,
                    }
                } else {
                    0
                }
            },
            _ => 0,
        }
    }
}

/// One decimal digit as a string.
fn digit_string(d: u64) -> (r: String)
    requires
        d < 10,
    ensures
        r@ == dec_digit(d as nat),
{
    if d == 0 {
        String::from_str("0")
    } else if d == 1 {
        String::from_str("1")
    } else if d == 2 {
        String::from_str("2")
    } else if d == 3 {
        String::from_str("3")
    } else if d == 4 {
        String::from_str("4")
    } else if d == 5 {
        String::from_str("5")
    } else if d == 6 {
        String::from_str("6")
    } else if d == 7 {
        String::from_str("7")
    } else if d == 8 {
        String::from_str("8")
    } else {
        String::from_str("9")
    }
}

/// The decimal notation of a number.
fn dec_string(n: u64) -> (r: String)
    ensures
        r@ == dec_str(n as nat),
    decreases n,
{
    if n < 10 {
        digit_string(n)
    } else {
        let mut s = dec_string(n / 10);
        let d = digit_string(n % 10);
        s.append(d.as_str());
        s
    }
}

/// Whether the string ends with the given suffix.
fn ends_with(s: &String, suffix: &str) -> (r: bool)
    ensures
        r == has_suffix(s@, suffix@),
{
    let n = s.as_str().unicode_len();
    let m = suffix.unicode_len();
    if m > n {
        return false;
    }
    let mut j: usize = 0;
    while j < m
        invariant
            n == s@.len(),
            m == suffix@.len(),
            m <= n,
            0 <= j <= m,
            forall|k: int| 0 <= k < j ==> s@[n - m + k] == suffix@[k],
        decreases m - j,
    {
        if s.as_str().get_char(n - m + j) != suffix.get_char(j) {
            return false;
        }
        j = j + 1;
    }
    proof {
        assert(s@.subrange(n - m, n as int) =~= suffix@);
    }
    true
}

/// The output file extension for a stored image reference.
fn ext_string(ty: &String) -> (r: String)
    ensures
        r@ == ext_view(ty@),
{
    if ends_with(ty, ".jpeg") {
        String::from_str(".jpeg")
    } else if ends_with(ty, ".jpg") {
        String::from_str(".jpg")
    } else if ends_with(ty, ".gif") {
        String::from_str(".gif")
    } else {
        String::from_str(".png")
    }
}

/// The generated output filename of the `n`-th saved image.
fn filename_string(n: u64, ty: &String) -> (r: String)
    ensures
        r@ == filename_view(n as nat, ty@),
{
    let mut s = String::from_str("image");
    let digits = dec_string(n);
    s.append(digits.as_str());
    let ext = ext_string(ty);
    s.append(ext.as_str());
    s
}

/// Recursively lowers one element, mirroring `lower_el`.
pub fn element_to_ast_node<S: ImageSaver>(e: &Element, num: &mut u64, saver: &mut S) -> (r: Result<
    MdNode,
    DocError,
>)
    requires
        lower_el((*e)@, *old(num) as nat).1 <= u64::MAX,
    ensures
        match r {
            Ok(node) => lower_el((*e)@, *old(num) as nat) == (node@, *final(num) as nat),
            Err(err) => err == DocError::ImageSaveFailed && lower_el((*e)@, *old(num) as nat).1 > *old(
                num,
            ) as nat,
        },
    decreases *e, 0nat,
{
    match e {
        Element::Text { text, .. } => Ok(MdNode::Text { text: text.clone() }),
        Element::Header { level, text } => {
            let mut children: Vec<MdNode> = Vec::new();
            children.push(MdNode::Text { text: text.clone() });
            proof {
                assert(md_seq_view(children@) =~= seq![MdNodeView::Text { text: text@ }]);
            }
            Ok(MdNode::Heading { level: *level, children })
        },
        Element::Hyperlink { title, url, alt, .. } => {
            let mut children: Vec<MdNode> = Vec::new();
            children.push(MdNode::Text { text: title.clone() });
            proof {
                assert(md_seq_view(children@) =~= seq![MdNodeView::Text { text: title@ }]);
            }
            Ok(MdNode::Link { url: url.clone(), title: alt.clone(), children })
        },
        Element::Image(d) => {
            *num = *num + 1;
            let filename = filename_string(*num, &d.image_type);
            let ok = saver.save(&d.bytes, &filename);
            if !ok {
                return Err(DocError::ImageSaveFailed);
            }
            let mut children: Vec<MdNode> = Vec::new();
            children.push(MdNode::Image { url: filename, title: d.title.clone() });
            proof {
                assert(md_seq_view(children@) =~= seq![
                    MdNodeView::Image {
                        url: filename_view(*num as nat, d.image_type@),
                        title: d.title@,
                    },
                ]);
            }
            Ok(MdNode::Paragraph { children })
        },
        Element::Paragraph { elements } => {
            match lower_elements_exec(elements, num, saver) {
                Ok(children) => Ok(MdNode::Paragraph { children }),
                Err(err) => Err(err),
            }
        },
        Element::List { elements, numbered } => {
            match lower_items_exec(elements, num, saver) {
                Ok(children) => Ok(MdNode::List { numbered: *numbered, children }),
                Err(err) => Err(err),
            }
        },
        Element::Table { headers, rows } => {
            let ghost n0 = *num as nat;
            proof {
                lemma_lower_rows_mono(
                    rows_view(rows@),
                    0,
                    lower_headers(headers_view(headers@), 0, n0).1,
                );
            }
            match lower_headers_exec(headers, num, saver) {
                Ok(hcells) => {
                    let ghost hv = md_seq_view(hcells@);
                    match lower_rows_exec(rows, num, saver) {
                        Ok(mut rrows) => {
                            let ghost rv = md_seq_view(rrows@);
                            let mut children: Vec<MdNode> = Vec::new();
                            children.push(MdNode::TableRow { header: true, children: hcells });
                            children.append(&mut rrows);
                            proof {
                                assert(md_seq_view(children@) =~= seq![
                                    MdNodeView::TableRow { header: true, children: hv },
                                ] + rv);
                            }
                            Ok(MdNode::Table { children })
                        },
                        Err(err) => {
                            proof {
                                lemma_lower_headers_mono(headers_view(headers@), 0, n0);
                            }
                            Err(err)
                        },
                    }
                },
                Err(err) => Err(err),
            }
        },
    }
}

/// Lowers a sequence of elements in order, mirroring `lower_els`.
fn lower_elements_exec<S: ImageSaver>(els: &Vec<Element>, num: &mut u64, saver: &mut S) -> (r:
    Result<Vec<MdNode>, DocError>)
    requires
        lower_els(elements_view(els@), 0, *old(num) as nat).1 <= u64::MAX,
    ensures
        match r {
            Ok(v) => lower_els(elements_view(els@), 0, *old(num) as nat) == (
                md_seq_view(v@),
                *final(num) as nat,
            ),
            Err(err) => err == DocError::ImageSaveFailed && lower_els(
                elements_view(els@),
                0,
                *old(num) as nat,
            ).1 > *old(num) as nat,
        },
    decreases *els, 1nat,
{
    let ghost elsv = elements_view(els@);
    let ghost base = *old(num) as nat;
    let ghost total = lower_els(elsv, 0, base);
    let mut out: Vec<MdNode> = Vec::new();
    let mut i: usize = 0;
    proof {
        assert(total.0 =~= md_seq_view(out@) + lower_els(elsv, 0, base).0);
    }
    while i < els.len()
        invariant
            0 <= i <= els@.len(),
            elsv == elements_view(els@),
            total == lower_els(elsv, 0, base),
            total.1 <= u64::MAX,
            base == *old(num) as nat,
            base <= *num as nat,
            total.0 == md_seq_view(out@) + lower_els(elsv, i as int, *num as nat).0,
            total.1 == lower_els(elsv, i as int, *num as nat).1,
        decreases els@.len() - i,
    {
        let ghost pre = *num as nat;
        proof {
            assert(elsv[i as int] == (els@[i as int])@);
            lemma_lower_el_mono(elsv[i as int], pre);
            lemma_lower_els_mono(elsv, i + 1, lower_el(elsv[i as int], pre).1);
        }
        match element_to_ast_node(&els[i], num, saver) {
            Ok(node) => {
                let ghost nodev = node@;
                let ghost outpre = out@;
                out.push(node);
                proof {
                    assert(md_seq_view(out@) =~= md_seq_view(outpre).push(nodev));
                    assert(total.0 =~= md_seq_view(out@) + lower_els(
                        elsv,
                        i + 1,
                        *num as nat,
                    ).0);
                }
            },
            Err(err) => {
                proof {
                    assert(lower_els(elsv, i as int, pre).1 > pre);
                    assert(total.1 > base);
                }
                return Err(err);
            },
        }
        i = i + 1;
    }
    proof {
        assert(total.0 =~= md_seq_view(out@));
    }
    Ok(out)
}

/// Lowers the items of a list in order, mirroring `lower_items`.
fn lower_items_exec<S: ImageSaver>(items: &Vec<ListItem>, num: &mut u64, saver: &mut S) -> (r:
    Result<Vec<MdNode>, DocError>)
    requires
        lower_items(items_view(items@), 0, *old(num) as nat).1 <= u64::MAX,
    ensures
        match r {
            Ok(v) => lower_items(items_view(items@), 0, *old(num) as nat) == (
                md_seq_view(v@),
                *final(num) as nat,
            ),
            Err(err) => err == DocError::ImageSaveFailed && lower_items(
                items_view(items@),
                0,
                *old(num) as nat,
            ).1 > *old(num) as nat,
        },
    decreases *items, 1nat,
{
    let ghost itemsv = items_view(items@);
    let ghost base = *old(num) as nat;
    let ghost total = lower_items(itemsv, 0, base);
    let mut out: Vec<MdNode> = Vec::new();
    let mut i: usize = 0;
    while i < items.len()
        invariant
            0 <= i <= items@.len(),
            itemsv == items_view(items@),
            total == lower_items(itemsv, 0, base),
            total.1 <= u64::MAX,
            base == *old(num) as nat,
            base <= *num as nat,
            total.0 == md_seq_view(out@) + lower_items(itemsv, i as int, *num as nat).0,
            total.1 == lower_items(itemsv, i as int, *num as nat).1,
        decreases items@.len() - i,
    {
        let ghost pre = *num as nat;
        proof {
            assert(itemsv[i as int].element == (items@[i as int].element)@);
            lemma_lower_el_mono(itemsv[i as int].element, pre);
            lemma_lower_items_mono(itemsv, i + 1, lower_el(itemsv[i as int].element, pre).1);
        }
        match element_to_ast_node(&items[i].element, num, saver) {
            Ok(node) => {
                let ghost nodev = node@;
                let is_direct = match &node {
                    MdNode::List { .. } => true,
                    MdNode::Paragraph { .. } => true,
                    _ => false,
                };
                let wrapped = if is_direct {
                    node
                } else {
                    let mut ch: Vec<MdNode> = Vec::new();
                    ch.push(node);
                    proof {
                        assert(md_seq_view(ch@) =~= seq![nodev]);
                    }
                    MdNode::Paragraph { children: ch }
                };
                let ghost wrappedv = wrapped@;
                let mut ich: Vec<MdNode> = Vec::new();
                ich.push(wrapped);
                proof {
                    assert(md_seq_view(ich@) =~= seq![wrappedv]);
                }
                let ghost outpre = out@;
                out.push(MdNode::Item { children: ich });
                proof {
                    assert(md_seq_view(out@) =~= md_seq_view(outpre).push(
                        MdNodeView::Item { children: seq![wrappedv] },
                    ));
                    assert(total.0 =~= md_seq_view(out@) + lower_items(
                        itemsv,
                        i + 1,
                        *num as nat,
                    ).0);
                }
            },
            Err(err) => {
                proof {
                    assert(lower_items(itemsv, i as int, pre).1 > pre);
                    assert(total.1 > base);
                }
                return Err(err);
            },
        }
        i = i + 1;
    }
    proof {
        assert(total.0 =~= md_seq_view(out@));
    }
    Ok(out)
}

/// Lowers the header cells of a table, mirroring `lower_headers`.
fn lower_headers_exec<S: ImageSaver>(hs: &Vec<TableHeader>, num: &mut u64, saver: &mut S) -> (r:
    Result<Vec<MdNode>, DocError>)
    requires
        lower_headers(headers_view(hs@), 0, *old(num) as nat).1 <= u64::MAX,
    ensures
        match r {
            Ok(v) => lower_headers(headers_view(hs@), 0, *old(num) as nat) == (
                md_seq_view(v@),
                *final(num) as nat,
            ),
            Err(err) => err == DocError::ImageSaveFailed && lower_headers(
                headers_view(hs@),
                0,
                *old(num) as nat,
            ).1 > *old(num) as nat,
        },
    decreases *hs, 1nat,
{
    let ghost hsv = headers_view(hs@);
    let ghost base = *old(num) as nat;
    let ghost total = lower_headers(hsv, 0, base);
    let mut out: Vec<MdNode> = Vec::new();
    let mut i: usize = 0;
    while i < hs.len()
        invariant
            0 <= i <= hs@.len(),
            hsv == headers_view(hs@),
            total == lower_headers(hsv, 0, base),
            total.1 <= u64::MAX,
            base == *old(num) as nat,
            base <= *num as nat,
            total.0 == md_seq_view(out@) + lower_headers(hsv, i as int, *num as nat).0,
            total.1 == lower_headers(hsv, i as int, *num as nat).1,
        decreases hs@.len() - i,
    {
        let ghost pre = *num as nat;
        proof {
            assert(hsv[i as int].element == (hs@[i as int].element)@);
            lemma_lower_el_mono(hsv[i as int].element, pre);
            lemma_lower_headers_mono(hsv, i + 1, lower_el(hsv[i as int].element, pre).1);
        }
        match element_to_ast_node(&hs[i].element, num, saver) {
            Ok(node) => {
                let ghost nodev = node@;
                let mut ch: Vec<MdNode> = Vec::new();
                ch.push(node);
                proof {
                    assert(md_seq_view(ch@) =~= seq![nodev]);
                }
                let ghost outpre = out@;
                out.push(MdNode::TableCell { children: ch });
                proof {
                    assert(md_seq_view(out@) =~= md_seq_view(outpre).push(
                        MdNodeView::TableCell { children: seq![nodev] },
                    ));
                    assert(total.0 =~= md_seq_view(out@) + lower_headers(
                        hsv,
                        i + 1,
                        *num as nat,
                    ).0);
                }
            },
            Err(err) => {
                proof {
                    assert(lower_headers(hsv, i as int, pre).1 > pre);
                    assert(total.1 > base);
                }
                return Err(err);
            },
        }
        i = i + 1;
    }
    proof {
        assert(total.0 =~= md_seq_view(out@));
    }
    Ok(out)
}

/// Lowers the cells of one table row, mirroring `lower_cells`.
fn lower_cells_exec<S: ImageSaver>(cells: &Vec<TableCell>, num: &mut u64, saver: &mut S) -> (r:
    Result<Vec<MdNode>, DocError>)
    requires
        lower_cells(cells_view(cells@), 0, *old(num) as nat).1 <= u64::MAX,
    ensures
        match r {
            Ok(v) => lower_cells(cells_view(cells@), 0, *old(num) as nat) == (
                md_seq_view(v@),
                *final(num) as nat,
            ),
            Err(err) => err == DocError::ImageSaveFailed && lower_cells(
                cells_view(cells@),
                0,
                *old(num) as nat,
            ).1 > *old(num) as nat,
        },
    decreases *cells, 1nat,
{
    let ghost csv = cells_view(cells@);
    let ghost base = *old(num) as nat;
    let ghost total = lower_cells(csv, 0, base);
    let mut out: Vec<MdNode> = Vec::new();
    let mut i: usize = 0;
    while i < cells.len()
        invariant
            0 <= i <= cells@.len(),
            csv == cells_view(cells@),
            total == lower_cells(csv, 0, base),
            total.1 <= u64::MAX,
            base == *old(num) as nat,
            base <= *num as nat,
            total.0 == md_seq_view(out@) + lower_cells(csv, i as int, *num as nat).0,
            total.1 == lower_cells(csv, i as int, *num as nat).1,
        decreases cells@.len() - i,
    {
        let ghost pre = *num as nat;
        proof {
            assert(csv[i as int].element == (cells@[i as int].element)@);
            lemma_lower_el_mono(csv[i as int].element, pre);
            lemma_lower_cells_mono(csv, i + 1, lower_el(csv[i as int].element, pre).1);
        }
        match element_to_ast_node(&cells[i].element, num, saver) {
            Ok(node) => {
                let ghost nodev = node@;
                let mut ch: Vec<MdNode> = Vec::new();
                ch.push(node);
                proof {
                    assert(md_seq_view(ch@) =~= seq![nodev]);
                }
                let ghost outpre = out@;
                out.push(MdNode::TableCell { children: ch });
                proof {
                    assert(md_seq_view(out@) =~= md_seq_view(outpre).push(
                        MdNodeView::TableCell { children: seq![nodev] },
                    ));
                    assert(total.0 =~= md_seq_view(out@) + lower_cells(
                        csv,
                        i + 1,
                        *num as nat,
                    ).0);
                }
            },
            Err(err) => {
                proof {
                    assert(lower_cells(csv, i as int, pre).1 > pre);
                    assert(total.1 > base);
                }
                return Err(err);
            },
        }
        i = i + 1;
    }
    proof {
        assert(total.0 =~= md_seq_view(out@));
    }
    Ok(out)
}

/// Lowers the data rows of a table, mirroring `lower_rows`.
fn lower_rows_exec<S: ImageSaver>(rows: &Vec<TableRow>, num: &mut u64, saver: &mut S) -> (r: Result<
    Vec<MdNode>,
    DocError,
>)
    requires
        lower_rows(rows_view(rows@), 0, *old(num) as nat).1 <= u64::MAX,
    ensures
        match r {
            Ok(v) => lower_rows(rows_view(rows@), 0, *old(num) as nat) == (
                md_seq_view(v@),
                *final(num) as nat,
            ),
            Err(err) => err == DocError::ImageSaveFailed && lower_rows(
                rows_view(rows@),
                0,
                *old(num) as nat,
            ).1 > *old(num) as nat,
        },
    decreases *rows, 2nat,
{
    let ghost rsv = rows_view(rows@);
    let ghost base = *old(num) as nat;
    let ghost total = lower_rows(rsv, 0, base);
    let mut out: Vec<MdNode> = Vec::new();
    let mut i: usize = 0;
    while i < rows.len()
        invariant
            0 <= i <= rows@.len(),
            rsv == rows_view(rows@),
            total == lower_rows(rsv, 0, base),
            total.1 <= u64::MAX,
            base == *old(num) as nat,
            base <= *num as nat,
            total.0 == md_seq_view(out@) + lower_rows(rsv, i as int, *num as nat).0,
            total.1 == lower_rows(rsv, i as int, *num as nat).1,
        decreases rows@.len() - i,
    {
        let ghost pre = *num as nat;
        proof {
            assert(rsv[i as int].cells == cells_view(rows@[i as int].cells@));
            lemma_lower_cells_mono(rsv[i as int].cells, 0, pre);
            lemma_lower_rows_mono(rsv, i + 1, lower_cells(rsv[i as int].cells, 0, pre).1);
        }
        match lower_cells_exec(&rows[i].cells, num, saver) {
            Ok(cs) => {
                let ghost csv = md_seq_view(cs@);
                let ghost outpre = out@;
                out.push(MdNode::TableRow { header: false, children: cs });
                proof {
                    assert(md_seq_view(out@) =~= md_seq_view(outpre).push(
                        MdNodeView::TableRow { header: false, children: csv },
                    ));
                    assert(total.0 =~= md_seq_view(out@) + lower_rows(
                        rsv,
                        i + 1,
                        *num as nat,
                    ).0);
                }
            },
            Err(err) => {
                proof {
                    assert(lower_rows(rsv, i as int, pre).1 > pre);
                    assert(total.1 > base);
                }
                return Err(err);
            },
        }
        i = i + 1;
    }
    proof {
        assert(total.0 =~= md_seq_view(out@));
    }
    Ok(out)
}

impl Transformer {
    /// Lowers a whole document into the output AST, persisting every
    /// embedded image through the given saver. The resulting tree is a
    /// function of the document alone — the saver only decides between
    /// success and `ImageSaveFailed` — and generated image numbers
    /// restart from one on every call.
    pub fn generate_with_saver<S: ImageSaver>(document: &Document, saver: &mut S) -> (r: Result<
        MdNode,
        DocError,
    >)
        requires
            lower_doc((*document)@).1 <= u64::MAX,
        ensures
            match r {
                Ok(t) => t@ == lower_doc((*document)@).0,
                Err(e) => e == DocError::ImageSaveFailed && lower_doc((*document)@).1 > 0,
            },
            lower_doc((*document)@).1 == 0 ==> r is Ok,
    {
        let ghost dv = (*document)@;
        let mut num: u64 = 0;
        proof {
            lemma_lower_els_mono(dv.page_header, 0, 0);
            lemma_lower_els_mono(dv.elements, 0, lower_els(dv.page_header, 0, 0).1);
            lemma_lower_els_mono(
                dv.page_footer,
                0,
                lower_els(dv.elements, 0, lower_els(dv.page_header, 0, 0).1).1,
            );
        }
        let hd = match lower_elements_exec(&document.page_header, &mut num, saver) {
            Ok(v) => v,
            Err(e) => {
                return Err(e);
            },
        };
        let bd = match lower_elements_exec(&document.elements, &mut num, saver) {
            Ok(v) => v,
            Err(e) => {
                return Err(e);
            },
        };
        let mut ft = match lower_elements_exec(&document.page_footer, &mut num, saver) {
            Ok(v) => v,
            Err(e) => {
                return Err(e);
            },
        };
        let ghost hv = md_seq_view(hd@);
        let ghost bv = md_seq_view(bd@);
        let ghost fv = md_seq_view(ft@);
        let mut children = hd;
        let mut bd = bd;
        children.append(&mut bd);
        children.append(&mut ft);
        proof {
            assert(md_seq_view(children@) =~= hv + bv + fv);
        }
        Ok(MdNode::Document { children })
    }
}

} // verus!
