use doctree::Transformer;
use doctree::lower::ImageSaver;
use doctree::lower::MdNode;
use doctree::model::DocError;
use doctree::model::Document;
use doctree::model::Element;
use doctree::model::ImageData;
use doctree::model::ImageDimension;
use doctree::model::ListItem;
use doctree::model::TableCell;
use doctree::model::TableHeader;
use doctree::model::TableRow;

struct RecordingSaver {
    saved: Vec<(Vec<u8>, String)>,
}

impl ImageSaver for RecordingSaver {
    fn save(&mut self, bytes: &Vec<u8>, filename: &String) -> bool {
        self.saved.push((bytes.clone(), filename.clone()));
        true
    }
}

struct FailingSaver;

impl ImageSaver for FailingSaver {
    fn save(&mut self, _bytes: &Vec<u8>, _filename: &String) -> bool {
        false
    }
}

fn text_el(t: &str) -> Element {
    Element::Text { text: t.to_string(), size: 14 }
}

fn text_node(t: &str) -> MdNode {
    MdNode::Text { text: t.to_string() }
}

fn image_doc() -> Document {
    Document::new(vec![
        Element::Image(ImageData {
            bytes: vec![9, 8, 7],
            title: "first".to_string(),
            alt: "first".to_string(),
            image_type: "photos/cat.jpg".to_string(),
            dimension: ImageDimension { width: None, height: None },
        }),
        Element::Image(ImageData {
            bytes: vec![4, 5],
            title: "second".to_string(),
            alt: "second".to_string(),
            image_type: "diagram".to_string(),
            dimension: ImageDimension { width: None, height: None },
        }),
    ])
}

#[test]
fn header_lowers_to_heading_with_text_child() {
    let doc = Document::new(vec![Element::Header { level: 2, text: "Title".to_string() }]);
    let tree = Transformer::generate_with_saver(&doc, &mut FailingSaver).unwrap();
    assert_eq!(
        tree,
        MdNode::Document {
            children: vec![MdNode::Heading { level: 2, children: vec![text_node("Title")] }],
        }
    );
}

#[test]
fn hyperlink_lowers_to_link_with_alt_as_title() {
    let doc = Document::new(vec![Element::Hyperlink {
        title: "label".to_string(),
        url: "https://example.org".to_string(),
        alt: "alt".to_string(),
        size: 14,
    }]);
    let tree = Transformer::generate_with_saver(&doc, &mut FailingSaver).unwrap();
    assert_eq!(
        tree,
        MdNode::Document {
            children: vec![MdNode::Link {
                url: "https://example.org".to_string(),
                title: "alt".to_string(),
                children: vec![text_node("label")],
            }],
        }
    );
}

#[test]
fn list_items_are_wrapped_in_paragraphs_and_sublists_kept() {
    let doc = Document::new(vec![Element::List {
        elements: vec![
            ListItem { element: text_el("plain") },
            ListItem {
                element: Element::List {
                    elements: vec![ListItem { element: text_el("sub") }],
                    numbered: false,
                },
            },
        ],
        numbered: true,
    }]);
    let tree = Transformer::generate_with_saver(&doc, &mut FailingSaver).unwrap();
    assert_eq!(
        tree,
        MdNode::Document {
            children: vec![MdNode::List {
                numbered: true,
                children: vec![
                    MdNode::Item {
                        children: vec![MdNode::Paragraph { children: vec![text_node("plain")] }],
                    },
                    MdNode::Item {
                        children: vec![MdNode::List {
                            numbered: false,
                            children: vec![MdNode::Item {
                                children: vec![MdNode::Paragraph {
                                    children: vec![text_node("sub")],
                                }],
                            }],
                        }],
                    },
                ],
            }],
        }
    );
}

#[test]
fn table_lowering_counts_columns_and_rows() {
    let header = |t: &str| TableHeader { element: text_el(t), width: 30 };
    let row = |a: &str, b: &str| TableRow {
        cells: vec![TableCell { element: text_el(a) }, TableCell { element: text_el(b) }],
    };
    let doc = Document::new(vec![Element::Table {
        headers: vec![header("Syntax"), header("Description")],
        rows: vec![row("Header", "Title"), row("Paragraph", "Text")],
    }]);
    let tree = Transformer::generate_with_saver(&doc, &mut FailingSaver).unwrap();
    match &tree {
        MdNode::Document { children } => {
            assert_eq!(children.len(), 1);
            let table = &children[0];
            assert_eq!(table.num_columns(), 2);
            assert_eq!(table.num_rows(), 3);
            match table {
                MdNode::Table { children } => {
                    assert_eq!(
                        children[0],
                        MdNode::TableRow {
                            header: true,
                            children: vec![
                                MdNode::TableCell { children: vec![text_node("Syntax")] },
                                MdNode::TableCell { children: vec![text_node("Description")] },
                            ],
                        }
                    );
                    assert_eq!(
                        children[2],
                        MdNode::TableRow {
                            header: false,
                            children: vec![
                                MdNode::TableCell { children: vec![text_node("Paragraph")] },
                                MdNode::TableCell { children: vec![text_node("Text")] },
                            ],
                        }
                    );
                },
                other => panic!("expected a table, got {:?}", other),
            }
        },
        other => panic!("expected a document, got {:?}", other),
    }
}

#[test]
fn lowering_twice_gives_identical_trees_and_filenames_restart() {
    let doc = image_doc();
    let mut saver1 = RecordingSaver { saved: vec![] };
    let tree1 = Transformer::generate_with_saver(&doc, &mut saver1).unwrap();
    let mut saver2 = RecordingSaver { saved: vec![] };
    let tree2 = Transformer::generate_with_saver(&doc, &mut saver2).unwrap();

    assert_eq!(tree1, tree2);
    assert_eq!(saver1.saved, saver2.saved);
    assert_eq!(saver1.saved.len(), 2);
    assert_eq!(saver1.saved[0], (vec![9, 8, 7], "image1.jpg".to_string()));
    assert_eq!(saver1.saved[1], (vec![4, 5], "image2.png".to_string()));

    assert_eq!(
        tree1,
        MdNode::Document {
            children: vec![
                MdNode::Paragraph {
                    children: vec![MdNode::Image {
                        url: "image1.jpg".to_string(),
                        title: "first".to_string(),
                    }],
                },
                MdNode::Paragraph {
                    children: vec![MdNode::Image {
                        url: "image2.png".to_string(),
                        title: "second".to_string(),
                    }],
                },
            ],
        }
    );
}

#[test]
fn failing_image_save_aborts_the_lowering() {
    let doc = image_doc();
    assert_eq!(
        Transformer::generate_with_saver(&doc, &mut FailingSaver),
        Err(DocError::ImageSaveFailed)
    );
}

#[test]
fn page_header_and_footer_come_before_and_after_the_body() {
    let mut doc = Document::new(vec![text_el("body")]);
    doc.page_header = vec![text_el("head")];
    doc.page_footer = vec![text_el("foot")];
    let tree = Transformer::generate_with_saver(&doc, &mut FailingSaver).unwrap();
    assert_eq!(
        tree,
        MdNode::Document {
            children: vec![text_node("head"), text_node("body"), text_node("foot")],
        }
    );
}
