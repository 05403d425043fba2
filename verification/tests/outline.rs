use lmm::{
    collect_part_symbols, indentation_fits, parse_document, Document, ParseOptions, ParseResult,
    PartSymbol, Position, Span,
};

fn parse(input: &str) -> ParseResult {
    assert!(indentation_fits(input, ParseOptions::default()));
    parse_document(input)
}

fn names(symbols: &[PartSymbol]) -> Vec<String> {
    symbols.iter().map(|s| s.name.clone()).collect()
}

#[test]
fn outline_collects_parts_and_hoists_through_other_blocks() {
    let r = parse(
        "@part One {\n@box {\n@part One A {\n}\n}\n@part {\n}\n}\ntext\n@list {\n@part Two {\n}\n}\n",
    );
    assert_eq!(r.diagnostics.len(), 0);
    let outline = collect_part_symbols(&r.document.nodes);
    assert_eq!(names(&outline), vec!["One", "Two"]);
    assert_eq!(names(&outline[0].children), vec!["One A", "part"]);
    assert_eq!(outline[0].children[0].children.len(), 0);
    assert_eq!(outline[1].children.len(), 0);
    assert_eq!(
        outline[0].span,
        Span::new(Position::new(0, 0, 0, 0), Position::new(0, 11, 11, 11))
    );
    assert_eq!(outline[0].children[0].span.start.line, 2);
    assert_eq!(outline[1].span.start.line, 10);
}

#[test]
fn outline_of_a_document_without_parts_is_empty() {
    let r = parse("text\n@box {\n@code {\n}\n}\n");
    assert_eq!(collect_part_symbols(&r.document.nodes).len(), 0);
    assert_eq!(collect_part_symbols(&[]).len(), 0);
}

#[test]
fn documents_can_be_cloned_and_compared() {
    let r = parse("#a: b\n@part T[x=1] {\n#k: v\n  text\n! c\n@inner {\n}\n}\n");
    let copy: Document = r.document.clone();
    assert_eq!(copy, r.document);
    let whole = r.clone();
    assert_eq!(whole, r);
    let other = parse("@part U {\n}\n");
    assert_ne!(other.document, r.document);
}

#[test]
fn checked_parse_refuses_weights_that_cannot_fit() {
    let huge = ParseOptions { space_width: usize::MAX, tab_width: 1 };
    assert!(lmm::checked_parse_document("  x", huge).is_none());
    assert!(!indentation_fits("  x", huge));
    assert!(!indentation_fits("fine\n\t x\nfine", huge));
    assert!(lmm::checked_parse_document("a\n \tb", huge).is_none());
    assert!(indentation_fits(" x", huge));
    assert!(indentation_fits("\t\tx\n x\n\n", huge));
    assert!(indentation_fits("", huge));
    assert!(indentation_fits("  \n\t\t\nx\n   ", huge));
    let blanks = lmm::checked_parse_document("  \n\t\t\nx\n   ", huge).unwrap();
    assert_eq!(blanks.document.nodes.len(), 1);
    assert_eq!(blanks.diagnostics.len(), 0);
    assert!(lmm::checked_parse_document("$\n   \n$\n", huge).is_some());
    let one = lmm::checked_parse_document(" x", huge).unwrap();
    assert_eq!(one.document.nodes.len(), 1);
    match &one.document.nodes[0] {
        lmm::Node::Text(t) => {
            assert_eq!(t.lines[0].indent, usize::MAX);
            assert_eq!(t.lines[0].value, "x");
        }
        lmm::Node::Block(_) => panic!("text expected"),
    }
    assert_eq!(lmm::parse_document_with_options(" x", huge), one);
    let long = "x".repeat(5000);
    assert!(indentation_fits(&long, huge));
    assert_eq!(lmm::checked_parse_document(&long, huge).unwrap().diagnostics.len(), 0);
    let ok = ParseOptions { space_width: 7, tab_width: 9 };
    let r = lmm::checked_parse_document(" \tx", ok).unwrap();
    assert_eq!(r, lmm::parse_document_with_options(" \tx", ok));
    assert_eq!(ParseOptions::default(), ParseOptions { space_width: 1, tab_width: 2 });
}
