use lmm::{
    indentation_fits, parse_document, parse_document_with_options, render_html, render_markdown,
    Block, Node, ParseOptions, ParseResult, Severity, Text,
};

fn block_at(nodes: &[Node], i: usize) -> &Block {
    match &nodes[i] {
        Node::Block(b) => b,
        Node::Text(_) => panic!("node {} is text, not a block", i),
    }
}

fn text_at(nodes: &[Node], i: usize) -> &Text {
    match &nodes[i] {
        Node::Text(t) => t,
        Node::Block(_) => panic!("node {} is a block, not text", i),
    }
}

fn parse(input: &str) -> ParseResult {
    assert!(indentation_fits(input, ParseOptions::default()));
    parse_document(input)
}

#[test]
fn parses_block_with_attrs_and_text() {
    let input = r#"
            @block key1="value1" key2="value2" {
                This is some text inside the block.
            }
        "#;
    let result = parse(input);
    assert_eq!(result.diagnostics.len(), 0);
    assert_eq!(result.document.nodes.len(), 1);
}

#[test]
fn renders_markdown_and_html() {
    let input = r#"#title: Demo

@part Hello World {
  @list[bullet] {
    First item
    Second item
  }

  @code[lang=rust] {
    println!("hi");
  }
}
"#;
    let parsed = parse(input);
    assert_eq!(parsed.diagnostics.len(), 0);

    let markdown = render_markdown(&parsed.document);
    let expected_markdown = r#"# Hello World

- First item
- Second item

```rust
println!("hi");
```"#;
    assert_eq!(markdown, expected_markdown);

    let html = render_html(&parsed.document);
    let expected_html = r#"<div class="lmm-document" data-title="Demo">
<section class="lmm-part">
<h1>Hello World</h1>
<ul class="lmm-list" data-param-bullet="">
<li>First item</li>
<li>Second item</li>
</ul>
<pre class="lmm-code" data-param-lang="rust"><code class="language-rust">println!(&quot;hi&quot;);
</code></pre>
</section>
</div>
"#;
    assert_eq!(html, expected_html);
}

#[test]
fn block_header_details() {
    let input = r#"
            @block key1="value1" key2="value2" {
                This is some text inside the block.
            }
        "#;
    let result = parse(input);
    let block = block_at(&result.document.nodes, 0);
    assert_eq!(block.name, "block");
    assert_eq!(block.args.len(), 2);
    assert_eq!(block.args[0], "key1=\"value1\"");
    assert_eq!(block.args[1], "key2=\"value2\"");
    assert_eq!(block.params.len(), 0);
    assert_eq!(block.span.start.line, 1);
    assert_eq!(block.span.start.col8, 12);
    assert_eq!(block.span.end.line, 1);
    let text = text_at(&block.nodes, 0);
    assert_eq!(text.lines.len(), 1);
    assert_eq!(text.lines[0].indent, 16);
    assert_eq!(text.lines[0].value, "This is some text inside the block.");
    assert!(!text.lines[0].is_comment);
}

#[test]
fn options_change_only_the_indent() {
    let input = " \tx\n";
    let a = parse(input);
    let opts = ParseOptions { space_width: 4, tab_width: 8 };
    assert!(indentation_fits(input, opts));
    let b = parse_document_with_options(input, opts);
    let la = &text_at(&a.document.nodes, 0).lines[0];
    let lb = &text_at(&b.document.nodes, 0).lines[0];
    assert_eq!(la.indent, 3);
    assert_eq!(lb.indent, 12);
    assert_eq!(la.value, lb.value);
    assert_eq!(la.span, lb.span);
    assert_eq!(a.diagnostics.len(), 0);
    assert_eq!(b.diagnostics.len(), 0);
    assert_eq!(a.diagnostics.iter().filter(|d| d.severity == Severity::Error).count(), 0);
}
