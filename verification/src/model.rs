//! The canonical, format-agnostic document tree: a `Document` is an ordered
//! sequence of `Element`s, and each `Element` owns its children exclusively.
//! Every executable type has a mathematical view (`...View`) over `Seq`,
//! which the contracts of the builder and the lowering pass speak about.
use vstd::prelude::*;

verus! {

/// Error kinds surfaced by the two passes. None of them is retried
/// internally; all are propagated to the caller.
#[derive(Debug, Clone, Copy, PartialEq, Eq, Structural)]
pub enum DocError {
    /// Input bytes were not decodable as text.
    InvalidEncoding,
    /// The image-loading callback failed while resolving an image reference.
    ImageLoadFailed,
    /// The image-saving callback failed while persisting an image.
    ImageSaveFailed,
    /// The nesting-descent algorithm could not find the expected
    /// list-of-lists shape at the required depth.
    StructuralInvariantViolation,
}

/// Pass-through image dimensions; the core never computes with them.
#[derive(Debug, Clone, Copy, PartialEq, Eq)]
pub struct ImageDimension {
    pub width: Option<u32>,
    pub height: Option<u32>,
}

impl ImageDimension {
    pub fn none() -> (r: ImageDimension)
        ensures
            r == (ImageDimension { width: None, height: None }),
    {
        ImageDimension { width: None, height: None }
    }
}

/// An embedded image: raw resource bytes plus pass-through metadata.
/// `image_type` keeps the source reference the image was resolved from;
/// the lowering pass derives the output file extension from it.
#[derive(Debug, PartialEq)]
pub struct ImageData {
    pub bytes: Vec<u8>,
    pub title: String,
    pub alt: String,
    pub image_type: String,
    pub dimension: ImageDimension,
}

#[derive(Debug, PartialEq)]
#[allow(inconsistent_fields)]
pub enum Element {
    Header { level: u8, text: String },
    Paragraph { elements: Vec<Element> },
    Text { text: String, size: u8 },
    List { elements: Vec<ListItem>, numbered: bool },
    Hyperlink { title: String, url: String, alt: String, size: u8 },
    Image(ImageData),
    Table { headers: Vec<TableHeader>, rows: Vec<TableRow> },
}

#[derive(Debug, PartialEq)]
pub struct ListItem {
    pub element: Element,
}

#[derive(Debug, PartialEq)]
pub struct TableHeader {
    pub element: Element,
    pub width: u32,
}

#[derive(Debug, PartialEq)]
pub struct TableRow {
    pub cells: Vec<TableCell>,
}

#[derive(Debug, PartialEq)]
pub struct TableCell {
    pub element: Element,
}

/// A whole document: body plus page header/footer sequences and opaque
/// page geometry, which the core passes through untouched.
#[derive(Debug, PartialEq)]
pub struct Document {
    pub elements: Vec<Element>,
    pub page_width: u32,
    pub page_height: u32,
    pub left_page_indent: u32,
    pub right_page_indent: u32,
    pub top_page_indent: u32,
    pub bottom_page_indent: u32,
    pub page_header: Vec<Element>,
    pub page_footer: Vec<Element>,
}

#[verifier::ext_equal]
pub struct ImageDataView {
    pub bytes: Seq<u8>,
    pub title: Seq<char>,
    pub alt: Seq<char>,
    pub image_type: Seq<char>,
    pub dimension: ImageDimension,
}

#[verifier::ext_equal]
#[allow(inconsistent_fields)]
pub enum ElementView {
    Header { level: u8, text: Seq<char> },
    Paragraph { elements: Seq<ElementView> },
    Text { text: Seq<char>, size: u8 },
    List { elements: Seq<ListItemView>, numbered: bool },
    Hyperlink { title: Seq<char>, url: Seq<char>, alt: Seq<char>, size: u8 },
    Image(ImageDataView),
    Table { headers: Seq<TableHeaderView>, rows: Seq<TableRowView> },
}

#[verifier::ext_equal]
pub struct ListItemView {
    pub element: ElementView,
}

#[verifier::ext_equal]
pub struct TableHeaderView {
    pub element: ElementView,
    pub width: u32,
}

#[verifier::ext_equal]
pub struct TableRowView {
    pub cells: Seq<TableCellView>,
}

#[verifier::ext_equal]
pub struct TableCellView {
    pub element: ElementView,
}

#[verifier::ext_equal]
pub struct DocumentView {
    pub elements: Seq<ElementView>,
    pub page_width: u32,
    pub page_height: u32,
    pub left_page_indent: u32,
    pub right_page_indent: u32,
    pub top_page_indent: u32,
    pub bottom_page_indent: u32,
    pub page_header: Seq<ElementView>,
    pub page_footer: Seq<ElementView>,
}

pub open spec fn image_view(d: ImageData) -> ImageDataView {
    ImageDataView {
        bytes: d.bytes@,
        title: d.title@,
        alt: d.alt@,
        image_type: d.image_type@,
        dimension: d.dimension,
    }
}

pub open spec fn element_view(e: Element) -> ElementView
    decreases e,
{
    match e {
        Element::Header { level, text } => ElementView::Header { level, text: text@ },
        Element::Paragraph { elements } => ElementView::Paragraph {
            elements: elements_view(elements@),
        },
        Element::Text { text, size } => ElementView::Text { text: text@, size },
        Element::List { elements, numbered } => ElementView::List {
            elements: items_view(elements@),
            numbered,
        },
        Element::Hyperlink { title, url, alt, size } => ElementView::Hyperlink {
            title: title@,
            url: url@,
            alt: alt@,
            size,
        },
        Element::Image(d) => ElementView::Image(image_view(d)),
        Element::Table { headers, rows } => ElementView::Table {
            headers: headers_view(headers@),
            rows: rows_view(rows@),
        },
    }
}

pub open spec fn elements_view(s: Seq<Element>) -> Seq<ElementView>
    decreases s,
{
    Seq::new(
        s.len(),
        |i: int|
            if 0 <= i < s.len() {
                element_view(s[i])
            } else {
                arbitrary()
            },
    )
}

pub open spec fn items_view(s: Seq<ListItem>) -> Seq<ListItemView>
    decreases s,
{
    Seq::new(
        s.len(),
        |i: int|
            if 0 <= i < s.len() {
                ListItemView { element: element_view(s[i].element) }
            } else {
                arbitrary()
            },
    )
}

pub open spec fn headers_view(s: Seq<TableHeader>) -> Seq<TableHeaderView>
    decreases s,
{
    Seq::new(
        s.len(),
        |i: int|
            if 0 <= i < s.len() {
                TableHeaderView { element: element_view(s[i].element), width: s[i].width }
            } else {
                arbitrary()
            },
    )
}

pub open spec fn rows_view(s: Seq<TableRow>) -> Seq<TableRowView>
    decreases s,
{
    Seq::new(
        s.len(),
        |i: int|
            if 0 <= i < s.len() {
                TableRowView { cells: cells_view(s[i].cells@) }
            } else {
                arbitrary()
            },
    )
}

pub open spec fn cells_view(s: Seq<TableCell>) -> Seq<TableCellView>
    decreases s,
{
    Seq::new(
        s.len(),
        |i: int|
            if 0 <= i < s.len() {
                TableCellView { element: element_view(s[i].element) }
            } else {
                arbitrary()
            },
    )
}

impl View for Element {
    type V = ElementView;

    open spec fn view(&self) -> ElementView {
        element_view(*self)
    }
}

impl View for ListItem {
    type V = ListItemView;

    open spec fn view(&self) -> ListItemView {
        ListItemView { element: element_view(self.element) }
    }
}

impl View for TableHeader {
    type V = TableHeaderView;

    open spec fn view(&self) -> TableHeaderView {
        TableHeaderView { element: element_view(self.element), width: self.width }
    }
}

impl View for TableRow {
    type V = TableRowView;

    open spec fn view(&self) -> TableRowView {
        TableRowView { cells: cells_view(self.cells@) }
    }
}

impl View for TableCell {
    type V = TableCellView;

    open spec fn view(&self) -> TableCellView {
        TableCellView { element: element_view(self.element) }
    }
}

impl View for ImageData {
    type V = ImageDataView;

    open spec fn view(&self) -> ImageDataView {
        image_view(*self)
    }
}

impl View for Document {
    type V = DocumentView;

    open spec fn view(&self) -> DocumentView {
        DocumentView {
            elements: elements_view(self.elements@),
            page_width: self.page_width,
            page_height: self.page_height,
            left_page_indent: self.left_page_indent,
            right_page_indent: self.right_page_indent,
            top_page_indent: self.top_page_indent,
            bottom_page_indent: self.bottom_page_indent,
            page_header: elements_view(self.page_header@),
            page_footer: elements_view(self.page_footer@),
        }
    }
}

/// The page geometry every freshly built document carries; the builder
/// never manipulates it.
pub open spec fn default_geometry_view(elements: Seq<ElementView>) -> DocumentView {
    DocumentView {
        elements,
        page_width: 210,
        page_height: 297,
        left_page_indent: 10,
        right_page_indent: 10,
        top_page_indent: 10,
        bottom_page_indent: 10,
        page_header: Seq::empty(),
        page_footer: Seq::empty(),
    }
}

impl Document {
    /// A document with the given body, default page geometry and empty
    /// page header and footer.
    pub fn new(elements: Vec<Element>) -> (r: Document)
        ensures
            r@ == default_geometry_view(elements_view(elements@)),
    {
        let r = Document {
            elements,
            page_width: 210,
            page_height: 297,
            left_page_indent: 10,
            right_page_indent: 10,
            top_page_indent: 10,
            bottom_page_indent: 10,
            page_header: Vec::new(),
            page_footer: Vec::new(),
        };
        proof {
            assert(r@.elements =~= elements_view(r.elements@));
            assert(r@.page_header =~= Seq::<ElementView>::empty());
            assert(r@.page_footer =~= Seq::<ElementView>::empty());
            assert(r@ =~= default_geometry_view(elements_view(r.elements@)));
        }
        r
    }
}

} // verus!
