use doctree::Transformer;
use doctree::builder::ImageLoader;
use doctree::events::StructuralEvent;
use doctree::lower::ImageSaver;
use doctree::lower::MdNode;
use doctree::model::Document;
use doctree::model::Element;
use doctree::model::TableCell;
use doctree::model::TableHeader;
use doctree::model::TableRow;
use pulldown_cmark::{Event, HeadingLevel, Options, Parser, Tag, TagEnd, TextMergeStream};
use comrak::nodes::{
    AstNode, ListDelimType, ListType, NodeHeading, NodeLink, NodeList, NodeTable, NodeValue,
    TableAlignment,
};

/// Tokenizes markdown text into the structural events the builder
/// consumes, with tables, strikethrough, smart punctuation, math and
/// GFM enabled.
fn md_events(input: &str) -> Vec<StructuralEvent> {
    let mut options = Options::empty();
    options.insert(Options::ENABLE_TABLES);
    options.insert(Options::ENABLE_STRIKETHROUGH);
    options.insert(Options::ENABLE_SMART_PUNCTUATION);
    options.insert(Options::ENABLE_MATH);
    options.insert(Options::ENABLE_GFM);
    let parser = Parser::new_ext(input, options);
    let mut out = Vec::new();
    for ev in TextMergeStream::new(parser) {
        out.push(match ev {
            Event::Start(tag) => match tag {
                Tag::Paragraph => StructuralEvent::ParagraphStart,
                Tag::Heading { level, .. } => StructuralEvent::HeadingStart {
                    level: match level {
                        HeadingLevel::H1 => 1,
                        HeadingLevel::H2 => 2,
                        HeadingLevel::H3 => 3,
                        HeadingLevel::H4 => 4,
                        HeadingLevel::H5 => 5,
                        HeadingLevel::H6 => 6,
                    },
                },
                Tag::List(numbered) => StructuralEvent::ListStart {
                    numbered: numbered.is_some(),
                },
                Tag::Item => StructuralEvent::ItemStart,
                Tag::Table(_) => StructuralEvent::TableStart,
                Tag::TableHead => StructuralEvent::TableHeadStart,
                Tag::Image { dest_url, title, .. } => StructuralEvent::ImageStart {
                    url: dest_url.to_string(),
                    title: title.to_string(),
                },
                Tag::Link { dest_url, title, .. } => StructuralEvent::LinkStart {
                    url: dest_url.to_string(),
                    title: title.to_string(),
                },
                _ => StructuralEvent::Other,
            },
            Event::Text(text) => StructuralEvent::Text { text: text.to_string() },
            Event::End(tag) => match tag {
                TagEnd::Paragraph => StructuralEvent::ParagraphEnd,
                TagEnd::Heading(_) => StructuralEvent::HeadingEnd,
                TagEnd::Link => StructuralEvent::LinkEnd,
                TagEnd::Image => StructuralEvent::ImageEnd,
                TagEnd::List(_) => StructuralEvent::ListEnd,
                TagEnd::TableHead => StructuralEvent::TableHeadEnd,
                TagEnd::Table => StructuralEvent::TableEnd,
                _ => StructuralEvent::Other,
            },
            _ => StructuralEvent::Other,
        });
    }
    out
}

/// Serializes an output AST back to commonmark text.
fn render(tree: &MdNode) -> String {
    let arena = comrak::Arena::new();
    let root = to_comrak(&arena, tree);
    let mut options = comrak::Options::default();
    options.extension.table = true;
    let mut out = String::new();
    comrak::format_commonmark(root, &options, &mut out).unwrap();
    out
}

fn to_comrak<'a>(
    arena: &'a comrak::Arena<'a>,
    n: &MdNode,
) -> &'a comrak::nodes::AstNode<'a> {
    let mk = |v: NodeValue| -> &'a AstNode<'a> { arena.alloc(AstNode::from(v)) };
    let append_all = |node: &'a AstNode<'a>, children: &Vec<MdNode>| {
        for c in children {
            node.append(to_comrak(arena, c));
        }
    };
    match n {
        MdNode::Document { children } => {
            let node = mk(NodeValue::Document);
            append_all(node, children);
            node
        },
        MdNode::Text { text } => mk(NodeValue::Text(text.clone().into())),
        MdNode::Heading { level, children } => {
            let node = mk(NodeValue::Heading(NodeHeading { level: *level, setext: false, closed: false }));
            append_all(node, children);
            node
        },
        MdNode::Paragraph { children } => {
            let node = mk(NodeValue::Paragraph);
            append_all(node, children);
            node
        },
        MdNode::List { numbered, children } => {
            let node = mk(NodeValue::List(NodeList {
                list_type: if *numbered { ListType::Ordered } else { ListType::Bullet },
                start: if *numbered { 1 } else { 0 },
                delimiter: ListDelimType::Period,
                bullet_char: b'-',
                tight: true,
                padding: 2,
                ..NodeList::default()
            }));
            append_all(node, children);
            node
        },
        MdNode::Item { children } => {
            let node = mk(NodeValue::Item(NodeList { tight: true, ..NodeList::default() }));
            append_all(node, children);
            node
        },
        MdNode::Image { url, title } => mk(NodeValue::Image(Box::new(NodeLink {
            url: url.clone(),
            title: title.clone(),
        }))),
        MdNode::Link { url, title, children } => {
            let node = mk(NodeValue::Link(Box::new(NodeLink { url: url.clone(), title: title.clone() })));
            append_all(node, children);
            node
        },
        MdNode::Table { children } => {
            let node = mk(NodeValue::Table(Box::new(NodeTable {
                alignments: vec![TableAlignment::None; n.num_columns()],
                num_columns: n.num_columns(),
                num_rows: n.num_rows(),
                num_nonempty_cells: 0,
            })));
            append_all(node, children);
            node
        },
        MdNode::TableRow { header, children } => {
            let node = mk(NodeValue::TableRow(*header));
            append_all(node, children);
            node
        },
        MdNode::TableCell { children } => {
            let node = mk(NodeValue::TableCell);
            append_all(node, children);
            node
        },
    }
}

struct NoImages;

impl ImageLoader for NoImages {
    fn load(&mut self, _url: &String) -> Option<Vec<u8>> {
        None
    }
}

struct NullSaver;

impl ImageSaver for NullSaver {
    fn save(&mut self, _bytes: &Vec<u8>, _filename: &String) -> bool {
        true
    }
}

fn parse(input: &str) -> Document {
    Transformer::build(&md_events(input), &mut NoImages).unwrap()
}

fn text_el(t: &str) -> Element {
    Element::Text { text: t.to_string(), size: 14 }
}

#[test]
fn test_parse_header() {
    let document = r#"
# First header

## Second Header

### Third Header
            "#;

    let result_doc = Document {
        elements: vec![
            Element::Header { level: 1, text: "First header".to_string() },
            Element::Header { level: 2, text: "Second Header".to_string() },
            Element::Header { level: 3, text: "Third Header".to_string() },
        ],
        page_width: 210,
        page_height: 297,
        left_page_indent: 10,
        right_page_indent: 10,
        top_page_indent: 10,
        bottom_page_indent: 10,
        page_header: vec![],
        page_footer: vec![],
    };

    let parsed = parse(document);

    assert_eq!(parsed, result_doc)
}

#[test]
fn test_parse_table() {
    let document = r#"
| Syntax      | Description |
| ----------- | ----------- |
| Header      | Title       |
| Paragraph   | Text        |
          "#;

    let result_doc = Document {
        elements: vec![Element::Table {
            headers: vec![
                TableHeader { element: text_el("Syntax"), width: 30 },
                TableHeader { element: text_el("Description"), width: 30 },
            ],
            rows: vec![
                TableRow {
                    cells: vec![
                        TableCell { element: text_el("Header") },
                        TableCell { element: text_el("Title") },
                    ],
                },
                TableRow {
                    cells: vec![
                        TableCell { element: text_el("Paragraph") },
                        TableCell { element: text_el("Text") },
                    ],
                },
            ],
        }],
        page_width: 210,
        page_height: 297,
        left_page_indent: 10,
        right_page_indent: 10,
        top_page_indent: 10,
        bottom_page_indent: 10,
        page_header: vec![],
        page_footer: vec![],
    };

    let parsed = parse(document);

    assert_eq!(parsed, result_doc)
}

/// Parses, lowers, serializes and re-parses, and expects the same
/// document tree back.
fn round_trip(input: &str) {
    let doc1 = parse(input);
    let tree = Transformer::generate_with_saver(&doc1, &mut NullSaver).unwrap();
    let regenerated = render(&tree);
    let doc2 = parse(&regenerated);
    assert_eq!(doc1, doc2, "regenerated text was: {:?}", regenerated);
}

#[test]
fn round_trip_headers() {
    round_trip("# One\n\n## Two\n\n### Three\n");
}

#[test]
fn round_trip_paragraphs() {
    round_trip("A first paragraph of plain text.\n\nA second paragraph.\n");
}

#[test]
fn round_trip_single_level_list() {
    round_trip("- one\n- two\n- three\n");
    round_trip("1. first\n2. second\n");
}

#[test]
fn round_trip_table() {
    round_trip(
        "| Syntax | Description |\n| --- | --- |\n| Header | Title |\n| Paragraph | Text |\n",
    );
}

#[test]
fn round_trip_mixed_document() {
    round_trip("# Title\n\nSome text here.\n\n- alpha\n- beta\n\n## Next\n\nMore text.\n");
}

#[test]
fn lowered_table_matches_example_counts() {
    let doc = parse("| Syntax | Description |\n| --- | --- |\n| Header | Title |\n| Paragraph | Text |\n");
    let tree = Transformer::generate_with_saver(&doc, &mut NullSaver).unwrap();
    match &tree {
        MdNode::Document { children } => {
            assert_eq!(children.len(), 1);
            assert_eq!(children[0].num_columns(), 2);
            assert_eq!(children[0].num_rows(), 3);
        },
        other => panic!("expected a document, got {:?}", other),
    }
}
