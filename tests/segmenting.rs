use chimera_text::data::Metadata;
use chimera_text::parse::{
    document_content, is_header, parse_epub, render_node, segment, MarkupElement, MarkupNode, ParseError,
};

fn element(name: &str, classes: &[&str], markup: &str, text: &str) -> MarkupNode {
    MarkupNode::Element(MarkupElement {
        name: name.to_string(),
        classes: classes.iter().map(|c| c.to_string()).collect(),
        markup: markup.to_string(),
        children: vec![MarkupNode::Text(text.to_string())],
    })
}

fn heading(text: &str) -> MarkupNode {
    element("h1", &[], &format!("<h1>{text}</h1>"), text)
}

fn para(text: &str) -> MarkupNode {
    element("p", &[], &format!("<p>{text}</p>"), text)
}

#[test]
fn recognises_heading_tags_and_classes() {
    assert!(is_header(&heading("One")));
    assert!(is_header(&element("H3", &[], "<H3>x</H3>", "x")));
    assert!(is_header(&element("div", &["title", "h2"], "<div class=\"title h2\">x</div>", "x")));
    assert!(!is_header(&element("h6", &[], "<h6>x</h6>", "x")));
    assert!(!is_header(&element("div", &["h12"], "<div>x</div>", "x")));
    assert!(!is_header(&para("x")));
    assert!(!is_header(&MarkupNode::Text("h1".to_string())));
}

#[test]
fn one_section_per_heading_in_order() {
    let nodes = vec![
        para("front"),
        heading("Chapter 1"),
        para("a"),
        MarkupNode::Comment("note".to_string()),
        heading("Chapter 2"),
        heading("Chapter 3"),
        MarkupNode::Text("tail".to_string()),
    ];
    let seg = segment(nodes);
    assert_eq!(seg.front_matter.len(), 1);
    assert_eq!(seg.sections.len(), 3);
    let titles: Vec<&str> = seg.sections.iter().map(|s| s.header_text.as_str()).collect();
    assert_eq!(titles, vec!["Chapter 1", "Chapter 2", "Chapter 3"]);
    assert_eq!(seg.sections[0].header_html, "<h1>Chapter 1</h1>");
    assert_eq!(seg.sections[0].body.len(), 2);
    assert_eq!(seg.sections[1].body.len(), 0);
    assert_eq!(seg.sections[2].body.len(), 1);
}

#[test]
fn no_heading_gives_no_section() {
    let seg = segment(vec![para("a"), MarkupNode::Text("b".to_string()), para("c")]);
    assert_eq!(seg.sections.len(), 0);
    assert_eq!(seg.front_matter.len(), 3);
    let seg = segment(vec![]);
    assert_eq!(seg.sections.len(), 0);
    assert_eq!(seg.front_matter.len(), 0);
}

#[test]
fn segmenting_twice_gives_the_same_sections() {
    let nodes = || vec![heading("I"), para("x"), heading("II"), para("y"), para("z")];
    let first = segment(nodes());
    let second = segment(nodes());
    assert_eq!(first.sections.len(), second.sections.len());
    for (s, t) in first.sections.iter().zip(second.sections.iter()) {
        assert_eq!(s.header_text, t.header_text);
        assert_eq!(s.header_html, t.header_html);
        let sb: Vec<String> = s.body.iter().map(render_node).collect();
        let tb: Vec<String> = t.body.iter().map(render_node).collect();
        assert_eq!(sb, tb);
    }
}

#[test]
fn renders_comments_between_delimiters() {
    assert_eq!(render_node(&MarkupNode::Comment(" c ".to_string())), "<!-- c -->");
    assert_eq!(render_node(&MarkupNode::Text("t".to_string())), "t");
    assert_eq!(render_node(&para("x")), "<p>x</p>");
}

#[test]
fn missing_content_text_is_an_error() {
    let units = vec![Some("<h1>Chapter 1</h1>".to_string()), None];
    let r = parse_epub(Metadata::default(), &units);
    assert!(matches!(r, Err(ParseError::MissingContentText)));
}

#[test]
fn parses_book_into_chapters() {
    let units = vec![
        Some("<p>Dedication</p><h1>Chapter 1</h1><p>a</p>".to_string()),
        Some("<p>b</p><h1 class=\"x\">Chapter 2</h1><p>c</p>".to_string()),
    ];
    let meta = Metadata { title: "T".to_string(), authors: vec!["Au".to_string()], description: vec![], cover: None };
    let book = parse_epub(meta, &units).unwrap();
    assert_eq!(book.metadata.title, "T");
    assert_eq!(book.metadata.authors, vec!["Au".to_string()]);
    assert_eq!(book.chapters.len(), 2);
    assert_eq!(book.chapters[0].title, "Chapter 1");
    assert_eq!(book.chapters[0].heading_html, "<h1>Chapter 1</h1>");
    assert_eq!(book.chapters[1].title, "Chapter 2");
    assert_eq!(book.chapters[0].paragraphs.len(), 2);
    assert!(book.chapters[0].paragraphs[0].contains('a'));
    assert!(book.chapters[0].paragraphs[1].contains('b'));
    assert_eq!(book.chapters[1].paragraphs.len(), 1);
    assert!(book.preamble.unwrap().contains("Dedication"));
    assert!(book.epilogue.is_none());
}

fn wrapper(name: &str, children: Vec<MarkupNode>) -> MarkupNode {
    MarkupNode::Element(MarkupElement {
        name: name.to_string(),
        classes: vec![],
        markup: format!("<{name}>...</{name}>"),
        children,
    })
}

#[test]
fn document_content_is_inside_html_and_body() {
    let doc = vec![
        MarkupNode::Comment("c".to_string()),
        wrapper("html", vec![wrapper("head", vec![]), wrapper("body", vec![heading("One"), para("a")])]),
    ];
    let content = document_content(doc);
    assert_eq!(content.len(), 2);
    assert!(is_header(&content[0]));
    let fragment = vec![heading("One"), para("a"), para("b")];
    assert_eq!(document_content(fragment).len(), 3);
    let no_body = vec![wrapper("html", vec![para("a")])];
    assert_eq!(document_content(no_body).len(), 1);
}

#[test]
fn rejected_markup_is_an_error() {
    let units = vec![Some("<div></div><body></body>".to_string())];
    match parse_epub(Metadata::default(), &units) {
        Err(ParseError::InvalidMarkup(cause)) => assert!(!cause.is_empty()),
        other => panic!("expected a markup error, got {other:?}"),
    }
}

#[test]
fn parses_xhtml_files_of_a_book() {
    let file = |body: &str| {
        Some(format!(
            "<?xml version=\"1.0\" encoding=\"utf-8\"?>\n<html xmlns=\"http://www.w3.org/1999/xhtml\"><head><title>t</title></head><body>{body}</body></html>"
        ))
    };
    let units = vec![
        file("<p>Title page</p>"),
        file("<h2>Chapter I</h2><p>one</p><p>two</p>"),
        file("<h2>Chapter II</h2><p>three</p>"),
    ];
    let book = parse_epub(Metadata::default(), &units).unwrap();
    assert_eq!(book.chapters.len(), 2);
    assert_eq!(book.chapters[0].title, "Chapter I");
    assert_eq!(book.chapters[0].paragraphs.len(), 2);
    assert_eq!(book.chapters[1].title, "Chapter II");
    assert!(book.preamble.unwrap().contains("Title page"));
}

#[test]
fn heading_text_gathers_nested_text() {
    let nested = MarkupNode::Element(MarkupElement {
        name: "h2".to_string(),
        classes: vec![],
        markup: "<h2><span>Chapter</span> 3</h2>".to_string(),
        children: vec![
            MarkupNode::Element(MarkupElement {
                name: "span".to_string(),
                classes: vec![],
                markup: "<span>Chapter</span>".to_string(),
                children: vec![MarkupNode::Text("Chapter".to_string())],
            }),
            MarkupNode::Comment("x".to_string()),
            MarkupNode::Text(" 3".to_string()),
        ],
    });
    let seg = segment(vec![nested, para("a")]);
    assert_eq!(seg.sections[0].header_text, "Chapter 3");
    assert_eq!(seg.sections[0].header_html, "<h2><span>Chapter</span> 3</h2>");
    let units = vec![Some("<h2><span>Chapter 3</span></h2><p>x</p>".to_string())];
    let book = parse_epub(Metadata::default(), &units).unwrap();
    assert_eq!(book.chapters[0].title, "Chapter 3");
}
