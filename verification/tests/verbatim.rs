use lmm::{
    indentation_fits, parse_document, Block, Node, ParseOptions, ParseResult, Position, Severity,
    Span, Text,
};

fn parse(input: &str) -> ParseResult {
    assert!(indentation_fits(input, ParseOptions::default()));
    parse_document(input)
}

fn block_at(nodes: &[Node], i: usize) -> &Block {
    match &nodes[i] {
        Node::Block(b) => b,
        Node::Text(_) => panic!("node {} is text, not a block", i),
    }
}

fn text_at(nodes: &[Node], i: usize) -> &Text {
    match &nodes[i] {
        Node::Text(t) => t,
        Node::Block(_) => panic!("node {} is a block, not text", i),
    }
}

#[test]
fn verbatim_section_keeps_headers_as_text() {
    let r = parse("$\n@not a block {\n! comment\n  indented\n$\nafter");
    assert_eq!(r.diagnostics.len(), 0);
    assert_eq!(r.document.nodes.len(), 2);
    let v = text_at(&r.document.nodes, 0);
    assert_eq!(v.lines.len(), 3);
    assert_eq!(v.lines[0].value, "@not a block {");
    assert!(!v.lines[0].is_comment);
    assert_eq!(v.lines[0].span.start.line, 1);
    assert_eq!(v.lines[1].value, "comment");
    assert!(v.lines[1].is_comment);
    assert_eq!(v.lines[2].value, "indented");
    assert_eq!(v.lines[2].indent, 2);
    let after = text_at(&r.document.nodes, 1);
    assert_eq!(after.lines.len(), 1);
    assert_eq!(after.lines[0].value, "after");
    assert_eq!(after.lines[0].span.start.line, 5);
}

#[test]
fn unterminated_verbatim_section_is_an_error() {
    let r = parse("$\nabc");
    assert_eq!(r.diagnostics.len(), 1);
    assert_eq!(r.diagnostics[0].severity, Severity::Error);
    assert_eq!(r.diagnostics[0].message, "unterminated $ block");
    assert_eq!(
        r.diagnostics[0].span,
        Span::new(Position::new(1, 0, 0, 0), Position::new(1, 0, 0, 0))
    );
    assert_eq!(r.document.nodes.len(), 1);
    assert_eq!(text_at(&r.document.nodes, 0).lines[0].value, "abc");
}

#[test]
fn unterminated_verbatim_section_is_anchored_at_the_last_line() {
    let r = parse("a\n$\nb\nc\n");
    assert_eq!(r.diagnostics.len(), 1);
    assert_eq!(r.diagnostics[0].message, "unterminated $ block");
    assert_eq!(r.diagnostics[0].span.start.line, 3);
    assert_eq!(r.document.nodes.len(), 2);
    assert_eq!(text_at(&r.document.nodes, 1).lines.len(), 2);
}

#[test]
fn pending_text_is_flushed_before_a_verbatim_section() {
    let r = parse("a\n$\nb\n$\nc");
    assert_eq!(r.diagnostics.len(), 0);
    assert_eq!(r.document.nodes.len(), 3);
    assert_eq!(text_at(&r.document.nodes, 0).lines[0].value, "a");
    assert_eq!(text_at(&r.document.nodes, 1).lines[0].value, "b");
    assert_eq!(text_at(&r.document.nodes, 2).lines[0].value, "c");
}

#[test]
fn empty_verbatim_section_adds_no_node() {
    let r = parse("$\n$\n");
    assert_eq!(r.diagnostics.len(), 0);
    assert_eq!(r.document.nodes.len(), 0);
}

#[test]
fn fence_may_be_surrounded_by_whitespace() {
    let r = parse("  $  \nx\n\t$\n");
    assert_eq!(r.diagnostics.len(), 0);
    assert_eq!(r.document.nodes.len(), 1);
    let t = text_at(&r.document.nodes, 0);
    assert_eq!(t.lines.len(), 1);
    assert_eq!(t.lines[0].value, "x");
}

#[test]
fn blank_lines_inside_a_verbatim_section_are_dropped() {
    let r = parse("$\n\nx\n   \ny\n$");
    assert_eq!(r.diagnostics.len(), 0);
    let t = text_at(&r.document.nodes, 0);
    assert_eq!(t.lines.len(), 2);
    assert_eq!(t.lines[0].value, "x");
    assert_eq!(t.lines[1].value, "y");
}

#[test]
fn verbatim_values_are_unescaped() {
    let r = parse("$\n@@a ## {{\n!!b\n$\n");
    let t = text_at(&r.document.nodes, 0);
    assert_eq!(t.lines[0].value, "@a # {");
    assert_eq!(t.lines[1].value, "!b");
    assert!(!t.lines[1].is_comment);
}

#[test]
fn closing_delimiter_inside_a_verbatim_section_does_not_close() {
    let r = parse("@a {\n$\n}\n$\n}\n");
    assert_eq!(r.diagnostics.len(), 0);
    assert_eq!(r.document.nodes.len(), 1);
    let a = block_at(&r.document.nodes, 0);
    assert_eq!(a.nodes.len(), 1);
    let t = text_at(&a.nodes, 0);
    assert_eq!(t.lines.len(), 1);
    assert_eq!(t.lines[0].value, "}");
}

#[test]
fn comment_and_text_lines_share_one_text_node() {
    let r = parse("one\n! hidden\n\ntwo\n!\n");
    assert_eq!(r.diagnostics.len(), 0);
    assert_eq!(r.document.nodes.len(), 1);
    let t = text_at(&r.document.nodes, 0);
    assert_eq!(t.lines.len(), 3);
    assert_eq!(t.lines[0].value, "one");
    assert!(t.lines[1].is_comment);
    assert_eq!(t.lines[1].value, "hidden");
    assert_eq!(t.lines[2].value, "two");
}

#[test]
fn comment_with_nothing_behind_the_bang_yields_no_line() {
    for input in ["!", "  !", "!   ", "\t! \t", "!\n", "$\n!\n$\n", "@a {\n!\n}\n"] {
        let r = parse(input);
        assert_eq!(r.diagnostics.len(), 0, "{:?}", input);
        for n in &r.document.nodes {
            if let Node::Block(b) = n {
                assert_eq!(b.nodes.len(), 0, "{:?}", input);
            } else {
                panic!("no text expected for {:?}", input);
            }
        }
    }
    let opts = ParseOptions::default();
    let bang: Vec<char> = "!".chars().collect();
    assert!(lmm::lines::parse_comment_line(&bang, 0, opts).is_none());
    let blank: Vec<char> = "  !  ".chars().collect();
    assert!(lmm::lines::parse_comment_line(&blank, 0, opts).is_none());
    assert!(lmm::lines::parse_text_line(&blank, 0, opts).is_none());
    let kept: Vec<char> = "!x".chars().collect();
    assert!(lmm::lines::parse_comment_line(&kept, 0, opts).is_some());
}

#[test]
fn empty_input_gives_an_empty_document() {
    let r = parse("");
    assert_eq!(r.diagnostics.len(), 0);
    assert_eq!(r.document.attrs.len(), 0);
    assert_eq!(r.document.nodes.len(), 0);
}

#[test]
fn whitespace_only_input_gives_an_empty_document() {
    let r = parse("  \n\t\n\u{a0}\n   ");
    assert_eq!(r.diagnostics.len(), 0);
    assert_eq!(r.document.nodes.len(), 0);
}
