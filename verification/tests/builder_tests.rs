use doctree::Transformer;
use doctree::builder::ImageLoader;
use doctree::events::StructuralEvent;
use doctree::model::DocError;
use doctree::model::Element;
use doctree::model::ImageDimension;
use doctree::model::ListItem;

struct FailingLoader;

impl ImageLoader for FailingLoader {
    fn load(&mut self, _url: &String) -> Option<Vec<u8>> {
        None
    }
}

struct BytesLoader {
    bytes: Vec<u8>,
    calls: usize,
}

impl ImageLoader for BytesLoader {
    fn load(&mut self, _url: &String) -> Option<Vec<u8>> {
        self.calls += 1;
        Some(self.bytes.clone())
    }
}

fn text_event(t: &str) -> StructuralEvent {
    StructuralEvent::Text { text: t.to_string() }
}

fn text_el(t: &str) -> Element {
    Element::Text { text: t.to_string(), size: 14 }
}

#[test]
fn three_headers_in_document_order() {
    let events = vec![
        StructuralEvent::HeadingStart { level: 1 },
        text_event("First header"),
        StructuralEvent::HeadingEnd,
        StructuralEvent::HeadingStart { level: 2 },
        text_event("Second Header"),
        StructuralEvent::HeadingEnd,
        StructuralEvent::HeadingStart { level: 3 },
        text_event("Third Header"),
        StructuralEvent::HeadingEnd,
    ];
    let doc = Transformer::build(&events, &mut FailingLoader).unwrap();
    assert_eq!(
        doc.elements,
        vec![
            Element::Header { level: 1, text: "First header".to_string() },
            Element::Header { level: 2, text: "Second Header".to_string() },
            Element::Header { level: 3, text: "Third Header".to_string() },
        ]
    );
    assert_eq!(doc.page_width, 210);
    assert_eq!(doc.page_height, 297);
    assert_eq!(doc.left_page_indent, 10);
    assert!(doc.page_header.is_empty());
    assert!(doc.page_footer.is_empty());
}

#[test]
fn paragraph_collects_text_runs() {
    let events = vec![
        StructuralEvent::ParagraphStart,
        text_event("one "),
        text_event("two"),
        StructuralEvent::ParagraphEnd,
    ];
    let doc = Transformer::build(&events, &mut FailingLoader).unwrap();
    assert_eq!(
        doc.elements,
        vec![Element::Paragraph { elements: vec![text_el("one "), text_el("two")] }]
    );
}

#[test]
fn nested_list_item_at_second_level() {
    // A five-item unordered list whose last item carries a one-item
    // sub-list: the sub-list becomes a sixth item whose element is
    // itself a list.
    let mut events = vec![StructuralEvent::ListStart { numbered: false }];
    for t in ["one", "two", "three", "four", "five"] {
        events.push(StructuralEvent::ItemStart);
        events.push(text_event(t));
        events.push(StructuralEvent::Other);
    }
    events.push(StructuralEvent::ListStart { numbered: false });
    events.push(StructuralEvent::ItemStart);
    events.push(text_event("sub"));
    events.push(StructuralEvent::Other);
    events.push(StructuralEvent::ListEnd);
    events.push(StructuralEvent::Other);
    events.push(StructuralEvent::ListEnd);

    let doc = Transformer::build(&events, &mut FailingLoader).unwrap();
    assert_eq!(doc.elements.len(), 1);
    match &doc.elements[0] {
        Element::List { elements, numbered } => {
            assert!(!*numbered);
            assert_eq!(elements.len(), 6);
            for (i, t) in ["one", "two", "three", "four", "five"].iter().enumerate() {
                assert_eq!(elements[i].element, text_el(t));
            }
            match &elements[5].element {
                Element::List { elements: inner, numbered: inner_numbered } => {
                    assert!(!*inner_numbered);
                    assert_eq!(inner.len(), 1);
                    assert_eq!(inner[0].element, text_el("sub"));
                },
                other => panic!("expected a nested list, got {:?}", other),
            }
        },
        other => panic!("expected a list, got {:?}", other),
    }
}

#[test]
fn deep_nesting_places_items_at_depth() {
    // Three nested lists; the innermost item must land two levels down.
    let events = vec![
        StructuralEvent::ListStart { numbered: false },
        StructuralEvent::ItemStart,
        text_event("a"),
        StructuralEvent::ListStart { numbered: false },
        StructuralEvent::ItemStart,
        text_event("b"),
        StructuralEvent::ListStart { numbered: true },
        StructuralEvent::ItemStart,
        text_event("c"),
        StructuralEvent::ListEnd,
        StructuralEvent::ListEnd,
        StructuralEvent::ListEnd,
    ];
    let doc = Transformer::build(&events, &mut FailingLoader).unwrap();
    let expected = Element::List {
        elements: vec![
            ListItem { element: text_el("a") },
            ListItem {
                element: Element::List {
                    elements: vec![
                        ListItem { element: text_el("b") },
                        ListItem {
                            element: Element::List {
                                elements: vec![ListItem { element: text_el("c") }],
                                numbered: true,
                            },
                        },
                    ],
                    numbered: false,
                },
            },
        ],
        numbered: false,
    };
    assert_eq!(doc.elements, vec![expected]);
}

#[test]
fn extra_list_end_is_a_structural_violation() {
    let events = vec![StructuralEvent::ListEnd];
    assert_eq!(
        Transformer::build(&events, &mut FailingLoader),
        Err(DocError::StructuralInvariantViolation)
    );

    let events = vec![
        StructuralEvent::ListStart { numbered: false },
        StructuralEvent::ListEnd,
        StructuralEvent::ListEnd,
    ];
    assert_eq!(
        Transformer::build(&events, &mut FailingLoader),
        Err(DocError::StructuralInvariantViolation)
    );
}

#[test]
fn text_into_empty_list_is_a_structural_violation() {
    let events = vec![StructuralEvent::ListStart { numbered: false }, text_event("stray")];
    assert_eq!(
        Transformer::build(&events, &mut FailingLoader),
        Err(DocError::StructuralInvariantViolation)
    );
}

#[test]
fn failing_image_load_aborts_the_build() {
    let events = vec![
        StructuralEvent::ParagraphStart,
        StructuralEvent::ImageStart {
            url: "picture.png".to_string(),
            title: "Picture title1".to_string(),
        },
        StructuralEvent::ImageEnd,
        StructuralEvent::ParagraphEnd,
    ];
    assert_eq!(Transformer::build(&events, &mut FailingLoader), Err(DocError::ImageLoadFailed));
    assert_eq!(
        Transformer::build_with_images(&events, &vec![None]),
        Err(DocError::ImageLoadFailed)
    );
    assert_eq!(Transformer::build_with_images(&events, &vec![]), Err(DocError::ImageLoadFailed));
}

#[test]
fn image_replaces_open_scope_and_takes_alt_text() {
    let events = vec![
        StructuralEvent::ParagraphStart,
        StructuralEvent::ImageStart {
            url: "pic.png".to_string(),
            title: "Title".to_string(),
        },
        text_event("alt text"),
        StructuralEvent::ImageEnd,
        StructuralEvent::ParagraphEnd,
    ];
    let mut loader = BytesLoader { bytes: vec![1, 2, 3], calls: 0 };
    let doc = Transformer::build(&events, &mut loader).unwrap();
    assert_eq!(loader.calls, 1);
    assert_eq!(doc.elements.len(), 1);
    match &doc.elements[0] {
        Element::Image(data) => {
            assert_eq!(data.bytes, vec![1, 2, 3]);
            assert_eq!(data.title, "Title");
            assert_eq!(data.alt, "alt text");
            assert_eq!(data.image_type, "pic.png");
            assert_eq!(data.dimension, ImageDimension { width: None, height: None });
        },
        other => panic!("expected an image, got {:?}", other),
    }

    let images = vec![Some(vec![1, 2, 3])];
    let doc2 = Transformer::build_with_images(&events, &images).unwrap();
    assert_eq!(doc, doc2);
}

#[test]
fn unrecognized_events_are_skipped() {
    let events = vec![
        StructuralEvent::Other,
        StructuralEvent::ParagraphStart,
        text_event("kept"),
        StructuralEvent::ParagraphEnd,
        StructuralEvent::Other,
    ];
    let doc = Transformer::build(&events, &mut FailingLoader).unwrap();
    assert_eq!(doc.elements, vec![Element::Paragraph { elements: vec![text_el("kept")] }]);
}

#[test]
fn supported_format_accepts_known_extensions() {
    for ext in ["md", "html", "htm", "txt", "pdf", "json"] {
        assert!(doctree::supported_format(ext));
    }
    for ext in ["docx", "xml", "", "MD", "markdown"] {
        assert!(!doctree::supported_format(ext));
    }
}
