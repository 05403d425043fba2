use lmm::backend::{has_param, list_style, ListStyle};
use lmm::{
    escape_html_into, indentation_fits, parse_document, push_indent, render_html, render_markdown,
    sanitize_html_ident, trim_trailing_newlines, Block, Node, ParseOptions, ParseResult,
};

fn parse(input: &str) -> ParseResult {
    assert!(indentation_fits(input, ParseOptions::default()));
    let r = parse_document(input);
    assert_eq!(r.diagnostics.len(), 0);
    r
}

fn md(input: &str) -> String {
    render_markdown(&parse(input).document)
}

fn html(input: &str) -> String {
    render_html(&parse(input).document)
}

fn first_block(r: &ParseResult) -> &Block {
    match &r.document.nodes[0] {
        Node::Block(b) => b,
        Node::Text(_) => panic!("first node is text"),
    }
}

#[test]
fn push_indent_appends_spaces() {
    let mut out = String::from("x");
    push_indent(&mut out, 3);
    assert_eq!(out, "x   ");
    push_indent(&mut out, 0);
    assert_eq!(out, "x   ");
}

#[test]
fn trim_trailing_newlines_removes_only_newlines_at_the_end() {
    let mut out = String::from("a\n\nb \n\n\n");
    trim_trailing_newlines(&mut out);
    assert_eq!(out, "a\n\nb ");
    trim_trailing_newlines(&mut out);
    assert_eq!(out, "a\n\nb ");
    let mut only = String::from("\n\n");
    trim_trailing_newlines(&mut only);
    assert_eq!(only, "");
    let mut empty = String::new();
    trim_trailing_newlines(&mut empty);
    assert_eq!(empty, "");
}

#[test]
fn sanitize_html_ident_keeps_lowers_maps_and_drops() {
    assert_eq!(sanitize_html_ident("My Key:1 é!"), "my-key-1-");
    assert_eq!(sanitize_html_ident("a_b-C\tD\n"), "a_b-c-d-");
    assert_eq!(sanitize_html_ident("é!?"), "");
    assert_eq!(sanitize_html_ident(""), "");
    assert_eq!(sanitize_html_ident("AZaz09"), "azaz09");
    assert_eq!(sanitize_html_ident("[`{@"), "");
}

#[test]
fn escape_html_into_replaces_the_five_characters() {
    let mut out = String::from(">");
    escape_html_into(&mut out, "a&b<c>d\"e'f é");
    assert_eq!(out, ">a&amp;b&lt;c&gt;d&quot;e&#39;f é");
    escape_html_into(&mut out, "");
    assert_eq!(out, ">a&amp;b&lt;c&gt;d&quot;e&#39;f é");
}

#[test]
fn plain_text_keeps_its_indent_in_markdown() {
    assert_eq!(md("  a\n b\n! hidden\nc"), "  a\n b\nc");
}

#[test]
fn text_nodes_are_separated_by_a_blank_line_in_markdown() {
    assert_eq!(md("a\n$\nb\n$\nc"), "a\n\nb\n\nc");
}

#[test]
fn plain_text_is_paragraphs_in_html() {
    assert_eq!(
        html("  a <b>\n! hidden\nc"),
        "<div class=\"lmm-document\">\n<p>a &lt;b&gt;</p>\n<p>c</p>\n</div>\n"
    );
}

#[test]
fn part_without_arguments_is_titled_part() {
    assert_eq!(md("@part {\n}"), "# part");
    assert_eq!(
        html("@part {\n}"),
        "<div class=\"lmm-document\">\n<section class=\"lmm-part\">\n<h1>part</h1>\n</section>\n</div>\n"
    );
}

#[test]
fn heading_level_follows_nesting_and_stops_at_six() {
    let input = "@part 1 {\n@part 2 {\n@part 3 {\n@part 4 {\n@part 5 {\n@part 6 {\n@part 7 {\n@part 8 {\n}\n}\n}\n}\n}\n}\n}\n}\n";
    assert_eq!(
        md(input),
        "# 1\n\n## 2\n\n### 3\n\n#### 4\n\n##### 5\n\n###### 6\n\n###### 7\n\n###### 8"
    );
    let h = html(input);
    for (level, title) in [(1, 1), (2, 2), (3, 3), (4, 4), (5, 5), (6, 6), (6, 7), (6, 8)] {
        assert!(h.contains(&format!("<h{}>{}</h{}>", level, title, level)));
    }
    assert!(!h.contains("<h7>"));
}

#[test]
fn other_blocks_do_not_change_the_heading_level() {
    assert_eq!(md("@part A {\n@box {\n@part B {\n}\n}\n}\n@part C {\n}\n"), "# A\n\n## B\n\n# C");
}

#[test]
fn list_of_bullets() {
    let input = "@list {\none\n! hidden\ntwo\n}\n";
    assert_eq!(md(input), "- one\n- two");
    assert_eq!(
        html(input),
        "<div class=\"lmm-document\">\n<ul class=\"lmm-list\">\n<li>one</li>\n<li>two</li>\n</ul>\n</div>\n"
    );
}

#[test]
fn list_of_lines_by_argument() {
    let input = "@list line {\none\ntwo & three\n}\n";
    assert_eq!(md(input), "one\ntwo & three");
    assert_eq!(
        html(input),
        "<div class=\"lmm-document\">\n<div class=\"lmm-lines\">\n<div class=\"lmm-line\">one</div>\n<div class=\"lmm-line\">two &amp; three</div>\n</div>\n</div>\n"
    );
}

#[test]
fn list_of_lines_by_parameter() {
    let input = "@list[line] {\none\n}\n";
    assert_eq!(md(input), "one");
    assert_eq!(
        html(input),
        "<div class=\"lmm-document\">\n<div class=\"lmm-lines\" data-param-line=\"\">\n<div class=\"lmm-line\">one</div>\n</div>\n</div>\n"
    );
}

#[test]
fn bullet_marker_wins_over_line_marker() {
    let r = parse("@list line [bullet] {\none\n}\n");
    let b = first_block(&r);
    assert!(has_param(b, "line"));
    assert!(has_param(b, "bullet"));
    assert!(!has_param(b, "lin"));
    assert_eq!(list_style(b), ListStyle::Bullet);
    assert_eq!(render_markdown(&r.document), "- one");
    let r = parse("@list line {\n}\n");
    assert_eq!(list_style(first_block(&r)), ListStyle::Line);
    let r = parse("@list {\n}\n");
    assert_eq!(list_style(first_block(&r)), ListStyle::Bullet);
}

#[test]
fn blocks_inside_a_list_are_ordinary_blocks_outside_any_part() {
    let input = "@part Outer {\n@list {\nitem\n@part Inner {\ntext\n}\n}\n}\n";
    assert_eq!(md(input), "# Outer\n\n- item\n# Inner\n\ntext");
    assert_eq!(
        html(input),
        "<div class=\"lmm-document\">\n<section class=\"lmm-part\">\n<h1>Outer</h1>\n<ul class=\"lmm-list\">\n<li>item</li>\n<section class=\"lmm-part\">\n<h1>Inner</h1>\n<p>text</p>\n</section>\n</ul>\n</section>\n</div>\n"
    );
}

#[test]
fn list_without_text_adds_no_blank_line() {
    assert_eq!(md("@list {\n! only a comment\n}\nafter"), "after");
}

#[test]
fn code_block_without_language() {
    let input = "@code {\n  let a = 1 < 2;\n! hidden\n    b\n}\n";
    assert_eq!(md(input), "```\nlet a = 1 < 2;\nb\n```");
    assert_eq!(
        html(input),
        "<div class=\"lmm-document\">\n<pre class=\"lmm-code\"><code>let a = 1 &lt; 2;\nb\n</code></pre>\n</div>\n"
    );
}

#[test]
fn code_block_language_is_the_first_lang_parameter() {
    let input = "@code[x=1, lang=c++, lang=rust]+ {\na\n}+\n";
    assert_eq!(md(input), "```c++\na\n```");
    assert_eq!(
        html(input),
        "<div class=\"lmm-document\">\n<pre class=\"lmm-code\" data-param-x=\"1\" data-param-lang=\"c++\" data-param-lang=\"rust\"><code class=\"language-c++\">a\n</code></pre>\n</div>\n"
    );
}

#[test]
fn code_block_passes_over_nested_blocks() {
    let input = "@code {\na\n@x {\nb\n}\nc\n}\n";
    assert_eq!(md(input), "```\na\nc\n```");
}

#[test]
fn other_blocks_are_transparent_in_markdown_and_divs_in_html() {
    let input = "@Note-1 extra {\n#Kind: a \"b\"\nhello\n}\n";
    assert_eq!(md(input), "hello");
    assert_eq!(
        html(input),
        "<div class=\"lmm-document\">\n<div class=\"lmm-block lmm-block-note-1\" data-kind=\"a &quot;b&quot;\">\n<p>hello</p>\n</div>\n</div>\n"
    );
}

#[test]
fn attributes_and_parameters_decorate_the_element() {
    let input = "#Doc Title: A & B\n#é: dropped\n@part T [My Key=1, x:y=<z>] {\n#mood: fine\n}\n";
    assert_eq!(
        html(input),
        "<div class=\"lmm-document\" data-doc-title=\"A &amp; B\">\n<section class=\"lmm-part\" data-mood=\"fine\" data-param-my-key=\"1\" data-param-x-y=\"&lt;z&gt;\">\n<h1>T</h1>\n</section>\n</div>\n"
    );
}

#[test]
fn what_follows_the_parameter_list_is_no_argument() {
    let r = parse("@part[a=1] T {\n}\n");
    let b = first_block(&r);
    assert_eq!(b.args.len(), 0);
    assert_eq!(b.params.len(), 1);
    assert_eq!(render_markdown(&r.document), "# part");
}

#[test]
fn part_title_is_escaped_in_html_only() {
    let input = "@part A <&> B {\n}\n";
    assert_eq!(md(input), "# A <&> B");
    assert!(html(input).contains("<h1>A &lt;&amp;&gt; B</h1>"));
}

#[test]
fn empty_document_renders_to_nothing_and_to_the_wrapper() {
    assert_eq!(md(""), "");
    assert_eq!(html(""), "<div class=\"lmm-document\">\n</div>\n");
}

#[test]
fn markdown_never_ends_in_a_newline() {
    for input in ["a\n\n\n", "@part x {\n}\n", "@code {\n}\n", "@list {\na\n}\n", "\n\n"] {
        assert!(!md(input).ends_with('\n'));
    }
}

#[test]
fn any_depth_may_be_given_to_the_block_renderers() {
    let r = parse("@part Deep {\n@part Deeper {\n}\n}\n");
    let b = first_block(&r);
    for depth in [5usize, 6, 7, 1000, usize::MAX] {
        let mut out = String::new();
        lmm::backend::render_block_markdown(b, &mut out, depth);
        assert_eq!(out, "###### Deep\n\n###### Deeper\n\n");
        let mut out = String::new();
        lmm::backend::render_block_html(b, &mut out, depth);
        assert!(out.contains("<h6>Deep</h6>"));
        assert!(out.contains("<h6>Deeper</h6>"));
    }
    let mut out = String::new();
    lmm::backend::render_block_markdown(b, &mut out, 4);
    assert_eq!(out, "##### Deep\n\n###### Deeper\n\n");
}
