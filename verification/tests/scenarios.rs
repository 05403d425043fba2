use lmm::{
    indentation_fits, parse_document, parse_document_with_options, render_html, render_markdown,
    Block, Node, ParseOptions, ParseResult, Position, Severity, Span, Text,
};

fn parse(input: &str) -> ParseResult {
    assert!(indentation_fits(input, ParseOptions::default()));
    parse_document(input)
}

fn block_at(nodes: &[Node], i: usize) -> &Block {
    match &nodes[i] {
        Node::Block(b) => b,
        Node::Text(_) => panic!("node {} is text, not a block", i),
    }
}

fn text_at(nodes: &[Node], i: usize) -> &Text {
    match &nodes[i] {
        Node::Text(t) => t,
        Node::Block(_) => panic!("node {} is a block, not text", i),
    }
}

fn only_value(input: &str) -> String {
    let r = parse(input);
    assert_eq!(r.diagnostics.len(), 0);
    assert_eq!(r.document.nodes.len(), 1);
    let t = text_at(&r.document.nodes, 0);
    assert_eq!(t.lines.len(), 1);
    t.lines[0].value.to_string()
}

#[test]
fn doubled_hash_is_one_hash() {
    assert_eq!(only_value("##"), "#");
}

#[test]
fn doubled_brace_is_one_brace() {
    assert_eq!(only_value("{{"), "{");
}

#[test]
fn doubled_at_inside_text_is_one_at() {
    assert_eq!(only_value("mail me @@ home"), "mail me @ home");
}

#[test]
fn doubled_at_in_verbatim_section_is_one_at() {
    let r = parse("$\n@@\n$\n");
    assert_eq!(r.diagnostics.len(), 0);
    assert_eq!(r.document.nodes.len(), 1);
    let t = text_at(&r.document.nodes, 0);
    assert_eq!(t.lines.len(), 1);
    assert_eq!(t.lines[0].value, "@");
}

#[test]
fn escape_pairs_are_consumed_whole() {
    assert_eq!(only_value("a ### b"), "a ## b");
    assert_eq!(only_value("a #### b"), "a ## b");
    assert_eq!(only_value("x {{{ y"), "x {{ y");
    assert_eq!(only_value("x @# y"), "x @# y");
}

#[test]
fn doubled_bang_at_column_zero_is_text() {
    let r = parse("!!foo");
    assert_eq!(r.diagnostics.len(), 0);
    let t = text_at(&r.document.nodes, 0);
    assert_eq!(t.lines.len(), 1);
    assert_eq!(t.lines[0].value, "!foo");
    assert!(!t.lines[0].is_comment);
    assert_eq!(t.lines[0].indent, 0);
    assert_eq!(
        t.lines[0].span,
        Span::new(Position::new(0, 0, 0, 0), Position::new(0, 4, 4, 4))
    );
}

#[test]
fn indent_of_two_spaces_is_two() {
    let r = parse("  x");
    let t = text_at(&r.document.nodes, 0);
    assert_eq!(t.lines[0].indent, 2);
    assert_eq!(t.lines[0].value, "x");
}

#[test]
fn indent_of_one_tab_is_two() {
    let r = parse("\tx");
    let t = text_at(&r.document.nodes, 0);
    assert_eq!(t.lines[0].indent, 2);
    assert_eq!(t.lines[0].value, "x");
}

#[test]
fn indent_of_space_and_tab_is_three() {
    let r = parse(" \tx");
    let t = text_at(&r.document.nodes, 0);
    assert_eq!(t.lines[0].indent, 3);
    assert_eq!(t.lines[0].value, "x");
    assert_eq!(
        t.lines[0].span,
        Span::new(Position::new(0, 2, 2, 2), Position::new(0, 3, 3, 3))
    );
}

#[test]
fn indent_with_other_weights() {
    let input = "  \t\t\tx";
    let opts = ParseOptions { space_width: 3, tab_width: 5 };
    assert!(indentation_fits(input, opts));
    let r = parse_document_with_options(input, opts);
    let t = text_at(&r.document.nodes, 0);
    assert_eq!(t.lines[0].indent, 21);
}

#[test]
fn zero_weights_give_zero_indent() {
    let input = "    x";
    let opts = ParseOptions { space_width: 0, tab_width: 0 };
    assert!(indentation_fits(input, opts));
    let r = parse_document_with_options(input, opts);
    let t = text_at(&r.document.nodes, 0);
    assert_eq!(t.lines[0].indent, 0);
    assert_eq!(t.lines[0].value, "x");
}

#[test]
fn balanced_nesting_over_lines() {
    let r = parse("@a {\n  @b {\n    x\n  }\n}\n");
    assert_eq!(r.diagnostics.len(), 0);
    assert_eq!(r.document.nodes.len(), 1);
    let a = block_at(&r.document.nodes, 0);
    assert_eq!(a.name, "a");
    assert_eq!(a.nodes.len(), 1);
    let b = block_at(&a.nodes, 0);
    assert_eq!(b.name, "b");
    assert_eq!(b.nodes.len(), 1);
    let t = text_at(&b.nodes, 0);
    assert_eq!(t.lines.len(), 1);
    assert_eq!(t.lines[0].value, "x");
    assert_eq!(t.lines[0].indent, 4);
}

#[test]
fn nesting_on_one_line_closes_at_the_first_delimiter() {
    let r = parse("@a { @b { x } }");
    assert_eq!(r.diagnostics.len(), 0);
    assert_eq!(r.document.nodes.len(), 2);
    let a = block_at(&r.document.nodes, 0);
    assert_eq!(a.name, "a");
    assert_eq!(a.nodes.len(), 1);
    let inner = text_at(&a.nodes, 0);
    assert_eq!(inner.lines.len(), 1);
    assert_eq!(inner.lines[0].value, " @b { x ");
    assert!(inner.lines[0].value.contains("x"));
    let rest = text_at(&r.document.nodes, 1);
    assert_eq!(rest.lines[0].value, " }");
}

#[test]
fn plus_delimited_block_closes_at_first_plus_delimiter() {
    let r = parse("@code+ { a } b } c }+ }");
    assert_eq!(r.diagnostics.len(), 0);
    assert_eq!(r.document.nodes.len(), 2);
    let code = block_at(&r.document.nodes, 0);
    assert_eq!(code.name, "code");
    assert_eq!(code.args.len(), 0);
    assert_eq!(code.nodes.len(), 1);
    let t = text_at(&code.nodes, 0);
    assert_eq!(t.lines.len(), 1);
    assert_eq!(t.lines[0].value.trim(), "a } b } c");
    assert_eq!(t.lines[0].value, " a } b } c ");
    let sibling = text_at(&r.document.nodes, 1);
    assert_eq!(sibling.lines.len(), 1);
    assert_eq!(sibling.lines[0].value.trim(), "}");
}

#[test]
fn two_plus_signs_need_two_in_the_delimiter() {
    let r = parse("@x++ {\na }+ b\n}++\n");
    assert_eq!(r.diagnostics.len(), 0);
    assert_eq!(r.document.nodes.len(), 1);
    let x = block_at(&r.document.nodes, 0);
    let t = text_at(&x.nodes, 0);
    assert_eq!(t.lines.len(), 1);
    assert_eq!(t.lines[0].value, "a }+ b");
}

#[test]
fn missing_space_before_brace_warns() {
    let r = parse("@part{x}");
    assert_eq!(r.diagnostics.len(), 1);
    assert_eq!(r.diagnostics[0].severity, Severity::Warning);
    assert_eq!(
        r.diagnostics[0].span,
        Span::new(Position::new(0, 0, 0, 0), Position::new(0, 6, 6, 6))
    );
    assert_eq!(r.document.nodes.len(), 1);
    let part = block_at(&r.document.nodes, 0);
    assert_eq!(part.name, "part");
    assert_eq!(part.span, r.diagnostics[0].span);
    let t = text_at(&part.nodes, 0);
    assert_eq!(t.lines[0].value, "x");
}

#[test]
fn space_before_brace_does_not_warn() {
    let r = parse("@part {x}");
    assert_eq!(r.diagnostics.len(), 0);
    assert_eq!(block_at(&r.document.nodes, 0).name, "part");
}

#[test]
fn unterminated_block_is_kept_with_an_error() {
    let r = parse("@a { text");
    assert_eq!(r.diagnostics.len(), 1);
    assert_eq!(r.diagnostics[0].severity, Severity::Error);
    assert_eq!(r.diagnostics[0].message, "missing closing delimiter");
    assert_eq!(
        r.diagnostics[0].span,
        Span::new(Position::new(0, 0, 0, 0), Position::new(0, 0, 0, 0))
    );
    assert_eq!(r.document.nodes.len(), 1);
    let a = block_at(&r.document.nodes, 0);
    assert_eq!(a.name, "a");
    assert_eq!(a.nodes.len(), 1);
    let t = text_at(&a.nodes, 0);
    assert_eq!(t.lines.len(), 1);
    assert_eq!(t.lines[0].value.trim(), "text");
    assert_eq!(t.lines[0].value, " text");
}

#[test]
fn end_to_end_render() {
    let input = "#title: Demo\n@part Hello World {\n  @list[bullet] {\n    First item\n    Second item\n  }\n  @code[lang=rust] {\n    println!(\"hi\");\n  }\n}\n";
    let parsed = parse(input);
    assert_eq!(parsed.diagnostics.len(), 0);
    assert_eq!(parsed.document.attrs.len(), 1);
    assert_eq!(parsed.document.attrs[0].key, "title");
    assert_eq!(parsed.document.attrs[0].value, "Demo");

    let markdown = render_markdown(&parsed.document);
    assert_eq!(
        markdown,
        "# Hello World\n\n- First item\n- Second item\n\n```rust\nprintln!(\"hi\");\n```"
    );

    let html = render_html(&parsed.document);
    assert_eq!(
        html,
        "<div class=\"lmm-document\" data-title=\"Demo\">\n<section class=\"lmm-part\">\n<h1>Hello World</h1>\n<ul class=\"lmm-list\" data-param-bullet=\"\">\n<li>First item</li>\n<li>Second item</li>\n</ul>\n<pre class=\"lmm-code\" data-param-lang=\"rust\"><code class=\"language-rust\">println!(&quot;hi&quot;);\n</code></pre>\n</section>\n</div>\n"
    );
}

#[test]
fn diagnostics_come_in_source_order() {
    let input = "#broken\n@one{\n  @ {\n  @two{\n  $\n  left open\n";
    let r = parse(input);
    let messages: Vec<String> = r.diagnostics.iter().map(|d| d.message.to_string()).collect();
    assert_eq!(r.diagnostics.len(), 7);
    assert_eq!(messages[0], "attribute missing ':'");
    assert_eq!(r.diagnostics[1].severity, Severity::Warning);
    assert_eq!(messages[2], "missing block name");
    assert_eq!(r.diagnostics[3].severity, Severity::Warning);
    assert_eq!(messages[4], "unterminated $ block");
    assert_eq!(messages[5], "missing closing delimiter");
    assert_eq!(messages[6], "missing closing delimiter");
    let lines: Vec<usize> = r.diagnostics.iter().map(|d| d.span.end.line).collect();
    assert_eq!(lines, vec![0, 1, 2, 3, 5, 5, 5]);
    for i in 0..r.diagnostics.len() {
        for j in i + 1..r.diagnostics.len() {
            assert!(r.diagnostics[i].span.end.line <= r.diagnostics[j].span.end.line);
        }
    }
    let starts: Vec<(usize, usize)> =
        r.diagnostics.iter().map(|d| (d.span.start.line, d.span.start.col32)).collect();
    assert_eq!(starts, vec![(0, 0), (1, 0), (2, 2), (3, 2), (5, 0), (5, 0), (5, 0)]);
}

#[test]
fn end_of_input_diagnostic_sits_on_the_last_line_read() {
    let r = parse("foo\n@a{x");
    assert_eq!(r.diagnostics.len(), 2);
    assert_eq!(r.diagnostics[0].severity, Severity::Warning);
    assert_eq!(r.diagnostics[0].span.start.line, 1);
    assert_eq!(r.diagnostics[0].span.end.line, 1);
    assert_eq!(r.diagnostics[1].message, "missing closing delimiter");
    assert_eq!(
        r.diagnostics[1].span,
        Span::new(Position::new(1, 0, 0, 0), Position::new(1, 0, 0, 0))
    );
}

#[test]
fn unclosed_block_is_anchored_at_the_last_line_read() {
    let r = parse("@a {\nfoo");
    assert_eq!(r.diagnostics.len(), 1);
    assert_eq!(r.diagnostics[0].message, "missing closing delimiter");
    assert_eq!(r.diagnostics[0].severity, Severity::Error);
    assert_eq!(r.diagnostics[0].span.start.line, 1);
    let a = block_at(&r.document.nodes, 0);
    assert_eq!(a.name, "a");
    assert_eq!(a.nodes.len(), 1);
    let t = text_at(&a.nodes, 0);
    assert_eq!(t.lines.len(), 1);
    assert_eq!(t.lines[0].value, "foo");

    for (input, line) in [
        ("@a {\nfoo\n", 1),
        ("@a {\nfoo\n\n", 2),
        ("@a {", 0),
        ("@a {\n", 0),
        ("x\ny\n@a {\nz", 3),
    ] {
        let r = parse(input);
        assert_eq!(r.diagnostics.len(), 1, "{:?}", input);
        assert_eq!(r.diagnostics[0].span.start.line, line, "{:?}", input);
        assert_eq!(r.diagnostics[0].span.start, r.diagnostics[0].span.end);
        assert_eq!(r.diagnostics[0].span.start.col32, 0);
    }
}
