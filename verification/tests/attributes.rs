use lmm::{
    indentation_fits, parse_document, Block, Node, ParseOptions, ParseResult, Position, Severity,
    Span, Text,
};

fn parse(input: &str) -> ParseResult {
    assert!(indentation_fits(input, ParseOptions::default()));
    parse_document(input)
}

fn block_at(nodes: &[Node], i: usize) -> &Block {
    match &nodes[i] {
        Node::Block(b) => b,
        Node::Text(_) => panic!("node {} is text, not a block", i),
    }
}

fn text_at(nodes: &[Node], i: usize) -> &Text {
    match &nodes[i] {
        Node::Text(t) => t,
        Node::Block(_) => panic!("node {} is a block, not text", i),
    }
}

#[test]
fn leading_attributes_are_read_in_order() {
    let r = parse("#title: Demo\n#author : Me \ntext");
    assert_eq!(r.diagnostics.len(), 0);
    assert_eq!(r.document.attrs.len(), 2);
    assert_eq!(r.document.attrs[0].key, "title");
    assert_eq!(r.document.attrs[0].value, "Demo");
    assert_eq!(
        r.document.attrs[0].span,
        Span::new(Position::new(0, 0, 0, 0), Position::new(0, 12, 12, 12))
    );
    assert_eq!(r.document.attrs[1].key, "author");
    assert_eq!(r.document.attrs[1].value, "Me");
    assert_eq!(
        r.document.attrs[1].span,
        Span::new(Position::new(1, 0, 0, 0), Position::new(1, 13, 13, 13))
    );
    assert_eq!(r.document.nodes.len(), 1);
    assert_eq!(text_at(&r.document.nodes, 0).lines[0].value, "text");
}

#[test]
fn attribute_without_colon_is_an_error_and_stays_text() {
    let r = parse("#title");
    assert_eq!(r.diagnostics.len(), 1);
    assert_eq!(r.diagnostics[0].severity, Severity::Error);
    assert_eq!(r.diagnostics[0].message, "attribute missing ':'");
    assert_eq!(
        r.diagnostics[0].span,
        Span::new(Position::new(0, 0, 0, 0), Position::new(0, 6, 6, 6))
    );
    assert_eq!(r.document.attrs.len(), 0);
    assert_eq!(r.document.nodes.len(), 1);
    assert_eq!(text_at(&r.document.nodes, 0).lines[0].value, "#title");
}

#[test]
fn attribute_with_empty_key_is_an_error() {
    let r = parse("#  : v");
    assert_eq!(r.diagnostics.len(), 1);
    assert_eq!(r.diagnostics[0].severity, Severity::Error);
    assert_eq!(r.diagnostics[0].message, "attribute key is empty");
    assert_eq!(r.document.attrs.len(), 0);
    assert_eq!(text_at(&r.document.nodes, 0).lines[0].value, "#  : v");
}

#[test]
fn malformed_attribute_ends_the_run() {
    let r = parse("#a: 1\n#broken\n#b: 2\n");
    assert_eq!(r.document.attrs.len(), 1);
    assert_eq!(r.document.attrs[0].key, "a");
    assert_eq!(r.diagnostics.len(), 1);
    assert_eq!(r.diagnostics[0].span.start.line, 1);
    let t = text_at(&r.document.nodes, 0);
    assert_eq!(t.lines.len(), 2);
    assert_eq!(t.lines[0].value, "#broken");
    assert_eq!(t.lines[1].value, "#b: 2");
}

#[test]
fn double_hash_line_is_no_attribute() {
    let r = parse("##x: y");
    assert_eq!(r.diagnostics.len(), 0);
    assert_eq!(r.document.attrs.len(), 0);
    assert_eq!(text_at(&r.document.nodes, 0).lines[0].value, "#x: y");
}

#[test]
fn blank_line_ends_the_attribute_phase() {
    let r = parse("\n#a: b");
    assert_eq!(r.diagnostics.len(), 0);
    assert_eq!(r.document.attrs.len(), 0);
    assert_eq!(text_at(&r.document.nodes, 0).lines[0].value, "#a: b");
}

#[test]
fn comment_line_ends_the_attribute_phase() {
    let r = parse("! note\n#a: b");
    assert_eq!(r.document.attrs.len(), 0);
    let t = text_at(&r.document.nodes, 0);
    assert_eq!(t.lines.len(), 2);
    assert!(t.lines[0].is_comment);
    assert_eq!(t.lines[0].value, "note");
    assert!(!t.lines[1].is_comment);
    assert_eq!(t.lines[1].value, "#a: b");
}

#[test]
fn attribute_value_keeps_later_colons() {
    let r = parse("#url: http://x.y/z");
    assert_eq!(r.document.attrs.len(), 1);
    assert_eq!(r.document.attrs[0].key, "url");
    assert_eq!(r.document.attrs[0].value, "http://x.y/z");
}

#[test]
fn attribute_may_be_indented_and_have_no_value() {
    let r = parse("  #k:");
    assert_eq!(r.diagnostics.len(), 0);
    assert_eq!(r.document.attrs.len(), 1);
    assert_eq!(r.document.attrs[0].key, "k");
    assert_eq!(r.document.attrs[0].value, "");
    assert_eq!(r.document.nodes.len(), 0);
}

#[test]
fn block_reads_its_leading_attribute_lines() {
    let r = parse("@a {\n#k: v\n#n: 2\nbody\n#late: x\n}\n");
    assert_eq!(r.diagnostics.len(), 0);
    let a = block_at(&r.document.nodes, 0);
    assert_eq!(a.attrs.len(), 2);
    assert_eq!(a.attrs[0].key, "k");
    assert_eq!(a.attrs[0].value, "v");
    assert_eq!(a.attrs[0].span.start.line, 1);
    assert_eq!(a.attrs[1].key, "n");
    assert_eq!(a.attrs[1].value, "2");
    let t = text_at(&a.nodes, 0);
    assert_eq!(t.lines.len(), 2);
    assert_eq!(t.lines[0].value, "body");
    assert_eq!(t.lines[1].value, "#late: x");
}

#[test]
fn block_body_on_the_header_line_has_no_attribute_lines() {
    let r = parse("@a { #k: v\n}");
    assert_eq!(r.diagnostics.len(), 0);
    let a = block_at(&r.document.nodes, 0);
    assert_eq!(a.attrs.len(), 0);
    assert_eq!(text_at(&a.nodes, 0).lines[0].value, " #k: v");
}
