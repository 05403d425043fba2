//! The render backends: two read-only walks over a document, one yielding
//! Markdown and one yielding HTML.

use vstd::prelude::*;
use vstd::string::StringExecFns;

use crate::ast::{
    attrs_view, lemma_nodes_view, lines_view, node_view, nodes_view, texts_view, Attribute,
    AttributeView, Block, BlockView, Document, DocumentView, Node, NodeView, Text, TextLineView,
    TextView,
};
use crate::scan::span_begin;
use crate::text::{
    ascii_alphanumeric, ascii_lowercase, ascii_whitespace, ends_with_char, is_ascii_alphanumeric,
    is_ascii_whitespace, pop_char, push_char, str_eq, to_ascii_lowercase,
};

verus! {

// ---------------------------------------------------------------------------
// Small pieces
// ---------------------------------------------------------------------------

/// `n` spaces.
pub open spec fn spaces(n: int) -> Seq<char> {
    Seq::new(n as nat, |i: int| ' ')
}

/// The class of the newline character.
pub open spec fn newlines() -> spec_fn(char) -> bool {
    |c: char| c == '\n'
}

/// `s` without the newlines at its end.
pub open spec fn without_trailing_newlines(s: Seq<char>) -> Seq<char> {
    s.take(span_begin(s, newlines(), s.len() as int))
}

/// The entity that stands for a character in HTML text; the character
/// itself where it needs none.
pub open spec fn html_entity(c: char) -> Seq<char> {
    if c == '&' {
        "&amp;"@
    } else if c == '<' {
        "&lt;"@
    } else if c == '>' {
        "&gt;"@
    } else if c == '"' {
        "&quot;"@
    } else if c == '\'' {
        "&#39;"@
    } else {
        seq![c]
    }
}

/// `s` with `&`, `<`, `>`, `"` and `'` replaced by their entities.
pub open spec fn escape_html(s: Seq<char>) -> Seq<char>
    decreases s.len(),
{
    if s.len() == 0 {
        Seq::empty()
    } else {
        escape_html(s.drop_last()) + html_entity(s.last())
    }
}

/// What a character becomes in an HTML identifier: ASCII letters and digits
/// in lower case, `-` and `_` as they are, ASCII whitespace and `:` as `-`;
/// nothing else is kept.
pub open spec fn ident_piece(c: char) -> Seq<char> {
    if ascii_alphanumeric(c) || c == '-' || c == '_' {
        seq![ascii_lowercase(c)]
    } else if ascii_whitespace(c) || c == ':' {
        seq!['-']
    } else {
        Seq::empty()
    }
}

/// `s` as an HTML identifier.
pub open spec fn sanitize_ident(s: Seq<char>) -> Seq<char>
    decreases s.len(),
{
    if s.len() == 0 {
        Seq::empty()
    } else {
        sanitize_ident(s.drop_last()) + ident_piece(s.last())
    }
}

/// The strings of `args` joined by single spaces.
pub open spec fn join_args(args: Seq<Seq<char>>) -> Seq<char>
    decreases args.len(),
{
    if args.len() == 0 {
        Seq::empty()
    } else if args.len() == 1 {
        args[0]
    } else {
        join_args(args.drop_last()) + seq![' '] + args.last()
    }
}

/// The title of a `part` block: its arguments joined by spaces, or the word
/// `part` where it has none.
pub open spec fn part_title(args: Seq<Seq<char>>) -> Seq<char> {
    if args.len() == 0 {
        "part"@
    } else {
        join_args(args)
    }
}

/// The heading level of a `part` under `part_level` enclosing parts: one
/// more than their number, and at most 6.
pub open spec fn heading_level(part_level: int) -> int {
    if part_level < 5 {
        part_level + 1
    } else {
        6
    }
}

/// The number of enclosing parts seen from inside one more part.  Counting
/// stops at 6, beyond which the heading level no longer changes.
pub open spec fn deeper(part_level: int) -> int {
    if part_level < 6 {
        part_level + 1
    } else {
        part_level
    }
}

/// The digit of a heading level.
pub open spec fn level_digit(level: int) -> char {
    if level == 1 {
        '1'
    } else if level == 2 {
        '2'
    } else if level == 3 {
        '3'
    } else if level == 4 {
        '4'
    } else if level == 5 {
        '5'
    } else {
        '6'
    }
}

/// `level` number signs.
pub open spec fn hashes(level: int) -> Seq<char> {
    Seq::new(level as nat, |i: int| '#')
}

/// How a `list` block shows its items.
#[derive(Debug, Clone, Copy, PartialEq, Eq)]
pub enum ListStyle {
    Bullet,
    Line,
}

/// Whether `key` is among the parameter keys or the bare arguments.
pub open spec fn has_key(b: BlockView, key: Seq<char>) -> bool {
    (exists|i: int| 0 <= i < b.params.len() && #[trigger] b.params[i].key == key) || (exists|
        i: int,
    |
        0 <= i < b.args.len() && #[trigger] b.args[i] == key)
}

/// The style of a `list` block: lines where `line` is marked and `bullet`
/// is not, bullets otherwise.
pub open spec fn style_of(b: BlockView) -> ListStyle {
    if has_key(b, "bullet"@) {
        ListStyle::Bullet
    } else if has_key(b, "line"@) {
        ListStyle::Line
    } else {
        ListStyle::Bullet
    }
}

/// The value of the first parameter with the given key, or the empty string.
pub open spec fn param_value(params: Seq<AttributeView>, key: Seq<char>) -> Seq<char>
    decreases params.len(),
{
    if params.len() == 0 {
        Seq::empty()
    } else if params[0].key == key {
        params[0].value
    } else {
        param_value(params.drop_first(), key)
    }
}

// ---------------------------------------------------------------------------
// Lines of text
// ---------------------------------------------------------------------------

/// The renderings of the non-comment lines of `lines`, in order, each made
/// by `f`.
pub open spec fn each_line(lines: Seq<TextLineView>, f: spec_fn(TextLineView) -> Seq<char>) -> Seq<
    char,
>
    decreases lines.len(),
{
    if lines.len() == 0 {
        Seq::empty()
    } else {
        each_line(lines.drop_last(), f) + if lines.last().is_comment {
            Seq::empty()
        } else {
            f(lines.last())
        }
    }
}

/// Whether any line of `lines` is not a comment.
pub open spec fn any_text_line(lines: Seq<TextLineView>) -> bool
    decreases lines.len(),
{
    if lines.len() == 0 {
        false
    } else {
        any_text_line(lines.drop_last()) || !lines.last().is_comment
    }
}

/// A line of plain Markdown text: its indent as spaces, its value, a newline.
pub open spec fn md_plain() -> spec_fn(TextLineView) -> Seq<char> {
    |l: TextLineView| spaces(l.indent) + l.value + seq!['\n']
}

/// A line as a Markdown list item.
pub open spec fn md_item(style: ListStyle) -> spec_fn(TextLineView) -> Seq<char> {
    |l: TextLineView|
        match style {
            ListStyle::Bullet => "- "@ + l.value + seq!['\n'],
            ListStyle::Line => l.value + seq!['\n'],
        }
}

/// A line of a Markdown code block: the bare value and a newline.
pub open spec fn md_code_line() -> spec_fn(TextLineView) -> Seq<char> {
    |l: TextLineView| l.value + seq!['\n']
}

/// A line as an HTML paragraph.
pub open spec fn html_paragraph() -> spec_fn(TextLineView) -> Seq<char> {
    |l: TextLineView| "<p>"@ + escape_html(l.value) + "</p>\n"@
}

/// A line as an HTML list item.
pub open spec fn html_item(style: ListStyle) -> spec_fn(TextLineView) -> Seq<char> {
    |l: TextLineView|
        match style {
            ListStyle::Bullet => "<li>"@ + escape_html(l.value) + "</li>\n"@,
            ListStyle::Line => "<div class=\"lmm-line\">"@ + escape_html(l.value) + "</div>\n"@,
        }
}

/// A line of an HTML code block: the escaped value and a newline.
pub open spec fn html_code_line() -> spec_fn(TextLineView) -> Seq<char> {
    |l: TextLineView| escape_html(l.value) + seq!['\n']
}

/// The renderings by `f` of the lines of the text nodes among `nodes`;
/// blocks among them are passed over.
pub open spec fn text_only(nodes: Seq<NodeView>, f: spec_fn(TextLineView) -> Seq<char>) -> Seq<
    char,
>
    decreases nodes.len(),
{
    if nodes.len() == 0 {
        Seq::empty()
    } else {
        text_only(nodes.drop_last(), f) + match nodes.last() {
            NodeView::Text(t) => each_line(t.lines, f),
            NodeView::Block(_) => Seq::empty(),
        }
    }
}

/// Whether a text node among `nodes` holds a line that is not a comment.
pub open spec fn any_text(nodes: Seq<NodeView>) -> bool
    decreases nodes.len(),
{
    if nodes.len() == 0 {
        false
    } else {
        any_text(nodes.drop_last()) || match nodes.last() {
            NodeView::Text(t) => any_text_line(t.lines),
            NodeView::Block(_) => false,
        }
    }
}

// ---------------------------------------------------------------------------
// Markdown
// ---------------------------------------------------------------------------

/// A text node in Markdown: its lines, then a blank line.
pub open spec fn md_text(t: TextView) -> Seq<char> {
    each_line(t.lines, md_plain()) + seq!['\n']
}

/// A node in Markdown.
pub open spec fn md_node(n: NodeView, part_level: int) -> Seq<char>
    decreases n, 0int,
{
    match n {
        NodeView::Text(t) => md_text(t),
        NodeView::Block(b) => md_block(b, part_level),
    }
}

/// A sequence of nodes in Markdown.
pub open spec fn md_nodes(nodes: Seq<NodeView>, part_level: int) -> Seq<char>
    decreases nodes, 1int,
{
    if nodes.len() == 0 {
        Seq::empty()
    } else {
        md_nodes(nodes.drop_last(), part_level) + md_node(nodes.last(), part_level)
    }
}

/// The children of a `list` block in Markdown: the lines of text nodes as
/// items, blocks as ordinary blocks outside any part.
pub open spec fn md_list_children(nodes: Seq<NodeView>, style: ListStyle) -> Seq<char>
    decreases nodes, 1int,
{
    if nodes.len() == 0 {
        Seq::empty()
    } else {
        md_list_children(nodes.drop_last(), style) + match nodes.last() {
            NodeView::Text(t) => each_line(t.lines, md_item(style)),
            NodeView::Block(c) => md_block(c, 0),
        }
    }
}

/// A block in Markdown.
///
/// - `part` is a heading of the level that its depth gives, a blank line,
///   and its children one part deeper;
/// - `list` is its items, and a blank line where there was any;
/// - `code` is a fence with the `lang` parameter, the lines of its text
///   children unescaped and unindented, and the closing fence;
/// - any other block is just its children.
pub open spec fn md_block(b: BlockView, part_level: int) -> Seq<char>
    decreases b, 2int,
{
    if b.name == "part"@ {
        hashes(heading_level(part_level)) + seq![' '] + part_title(b.args) + "\n\n"@ + md_nodes(
            b.nodes,
            deeper(part_level),
        )
    } else if b.name == "list"@ {
        md_list_children(b.nodes, style_of(b)) + if any_text(b.nodes) {
            seq!['\n']
        } else {
            Seq::empty()
        }
    } else if b.name == "code"@ {
        "```"@ + param_value(b.params, "lang"@) + seq!['\n'] + text_only(b.nodes, md_code_line())
            + "```\n\n"@
    } else {
        md_nodes(b.nodes, part_level)
    }
}

/// A document in Markdown: its nodes, without the newlines at the very end.
pub open spec fn markdown_of(d: DocumentView) -> Seq<char> {
    without_trailing_newlines(md_nodes(d.nodes, 0))
}

// ---------------------------------------------------------------------------
// HTML
// ---------------------------------------------------------------------------

/// One attribute as an HTML `data-` attribute with the given prefix; nothing
/// where its key sanitizes to nothing.
pub open spec fn data_attr(a: AttributeView, prefix: Seq<char>) -> Seq<char> {
    if sanitize_ident(a.key).len() == 0 {
        Seq::empty()
    } else {
        prefix + sanitize_ident(a.key) + "=\""@ + escape_html(a.value) + seq!['"']
    }
}

/// A sequence of attributes as HTML `data-` attributes.
pub open spec fn data_attrs(attrs: Seq<AttributeView>, prefix: Seq<char>) -> Seq<char>
    decreases attrs.len(),
{
    if attrs.len() == 0 {
        Seq::empty()
    } else {
        data_attrs(attrs.drop_last(), prefix) + data_attr(attrs.last(), prefix)
    }
}

/// Attributes as `data-*` and, where given, parameters as `data-param-*`.
pub open spec fn html_attrs(attrs: Seq<AttributeView>, params: Option<Seq<AttributeView>>) -> Seq<
    char,
> {
    data_attrs(attrs, " data-"@) + match params {
        Some(p) => data_attrs(p, " data-param-"@),
        None => Seq::empty(),
    }
}

/// A text node in HTML: one paragraph per line that is not a comment.
pub open spec fn html_text(t: TextView) -> Seq<char> {
    each_line(t.lines, html_paragraph())
}

/// A node in HTML.
pub open spec fn html_node(n: NodeView, part_level: int) -> Seq<char>
    decreases n, 0int,
{
    match n {
        NodeView::Text(t) => html_text(t),
        NodeView::Block(b) => html_block(b, part_level),
    }
}

/// A sequence of nodes in HTML.
pub open spec fn html_nodes(nodes: Seq<NodeView>, part_level: int) -> Seq<char>
    decreases nodes, 1int,
{
    if nodes.len() == 0 {
        Seq::empty()
    } else {
        html_nodes(nodes.drop_last(), part_level) + html_node(nodes.last(), part_level)
    }
}

/// The children of a `list` block in HTML: the lines of text nodes as
/// items, blocks as ordinary blocks outside any part.
pub open spec fn html_list_children(nodes: Seq<NodeView>, style: ListStyle) -> Seq<char>
    decreases nodes, 1int,
{
    if nodes.len() == 0 {
        Seq::empty()
    } else {
        html_list_children(nodes.drop_last(), style) + match nodes.last() {
            NodeView::Text(t) => each_line(t.lines, html_item(style)),
            NodeView::Block(c) => html_block(c, 0),
        }
    }
}

/// The `class` attribute of the `code` element, for a language.
pub open spec fn language_class(lang: Seq<char>) -> Seq<char> {
    if lang.len() == 0 {
        Seq::empty()
    } else {
        " class=\"language-"@ + escape_html(lang) + seq!['"']
    }
}

/// A block in HTML.
///
/// - `part` is a `section` with a heading of the level that its depth
///   gives, and its children one part deeper;
/// - `list` is a `ul` of `li` items, or a `div` of line `div`s;
/// - `code` is a `pre` around a `code` with the lines of its text children;
/// - any other block is a `div` classed by its sanitized name.
/// Attribute lines and parameters decorate the element.
pub open spec fn html_block(b: BlockView, part_level: int) -> Seq<char>
    decreases b, 2int,
{
    let decor = html_attrs(b.attrs, Some(b.params));
    if b.name == "part"@ {
        let digit = level_digit(heading_level(part_level));
        "<section class=\"lmm-part\""@ + decor + ">\n"@ + "<h"@ + seq![digit] + seq!['>']
            + escape_html(part_title(b.args)) + "</h"@ + seq![digit] + ">\n"@ + html_nodes(
            b.nodes,
            deeper(part_level),
        ) + "</section>\n"@
    } else if b.name == "list"@ {
        match style_of(b) {
            ListStyle::Bullet => "<ul class=\"lmm-list\""@ + decor + ">\n"@ + html_list_children(
                b.nodes,
                ListStyle::Bullet,
            ) + "</ul>\n"@,
            ListStyle::Line => "<div class=\"lmm-lines\""@ + decor + ">\n"@ + html_list_children(
                b.nodes,
                ListStyle::Line,
            ) + "</div>\n"@,
        }
    } else if b.name == "code"@ {
        "<pre class=\"lmm-code\""@ + decor + "><code"@ + language_class(
            param_value(b.params, "lang"@),
        ) + seq!['>'] + text_only(b.nodes, html_code_line()) + "</code></pre>\n"@
    } else {
        "<div class=\""@ + "lmm-block lmm-block-"@ + sanitize_ident(b.name) + seq!['"'] + decor
            + ">\n"@ + html_nodes(b.nodes, part_level) + "</div>\n"@
    }
}

/// A document in HTML: a `div` decorated with the document's attributes
/// around its nodes.
pub open spec fn html_of(d: DocumentView) -> Seq<char> {
    "<div class=\"lmm-document\""@ + html_attrs(d.attrs, None) + ">\n"@ + html_nodes(d.nodes, 0)
        + "</div>\n"@
}

// ---------------------------------------------------------------------------
// Executable pieces
// ---------------------------------------------------------------------------

/// Appends `indent` spaces.
pub fn push_indent(out: &mut String, indent: usize)
    ensures
        final(out)@ == old(out)@ + spaces(indent as int),
{
    let mut i: usize = 0;
    while i < indent
        invariant
            i <= indent,
            out@ == old(out)@ + spaces(i as int),
        decreases indent - i,
    {
        push_char(out, ' ');
        i += 1;
    }
}

/// Removes the newlines at the end of `out`.
pub fn trim_trailing_newlines(out: &mut String)
    ensures
        final(out)@ == without_trailing_newlines(old(out)@),
{
    proof {
        assert(out@.take(out@.len() as int) == out@);
    }
    while ends_with_char(out, '\n')
        invariant
            out@.len() <= old(out)@.len(),
            out@ == old(out)@.take(out@.len() as int),
            span_begin(old(out)@, newlines(), out@.len() as int) == span_begin(
                old(out)@,
                newlines(),
                old(out)@.len() as int,
            ),
        decreases out@.len(),
    {
        let ghost before = out@;
        pop_char(out);
        assert(out@ == old(out)@.take(out@.len() as int));
    }
}

/// Appends `chars` with the characters that HTML reserves replaced by
/// entities.
pub fn escape_html_chars(out: &mut String, chars: &[char])
    ensures
        final(out)@ == old(out)@ + escape_html(chars@),
{
    let mut i: usize = 0;
    while i < chars.len()
        invariant
            i <= chars@.len(),
            out@ == old(out)@ + escape_html(chars@.take(i as int)),
        decreases chars@.len() - i,
    {
        let ch = chars[i];
        proof {
            assert(chars@.take(i + 1).drop_last() == chars@.take(i as int));
        }
        if ch == '&' {
            out.append("&amp;");
        } else if ch == '<' {
            out.append("&lt;");
        } else if ch == '>' {
            out.append("&gt;");
        } else if ch == '"' {
            out.append("&quot;");
        } else if ch == '\'' {
            out.append("&#39;");
        } else {
            push_char(out, ch);
        }
        i += 1;
    }
    proof {
        assert(chars@.take(chars@.len() as int) == chars@);
    }
}

/// Appends `value` with the characters that HTML reserves (`&`, `<`, `>`,
/// `"`, `'`) replaced by entities.
pub fn escape_html_into(out: &mut String, value: &str)
    ensures
        final(out)@ == old(out)@ + escape_html(value@),
{
    let chars = crate::text::str_to_chars(value);
    escape_html_chars(out, chars.as_slice());
}

/// `value` as an HTML identifier.
pub fn sanitize_html_ident(value: &str) -> (out: String)
    ensures
        out@ == sanitize_ident(value@),
{
    let chars = crate::text::str_to_chars(value);
    let mut out = String::new();
    let mut i: usize = 0;
    while i < chars.len()
        invariant
            i <= chars@.len(),
            out@ == sanitize_ident(chars@.take(i as int)),
        decreases chars@.len() - i,
    {
        let ch = chars[i];
        proof {
            assert(chars@.take(i + 1).drop_last() == chars@.take(i as int));
        }
        if is_ascii_alphanumeric(ch) || ch == '-' || ch == '_' {
            push_char(&mut out, to_ascii_lowercase(ch));
        } else if is_ascii_whitespace(ch) || ch == ':' {
            push_char(&mut out, '-');
        }
        i += 1;
    }
    proof {
        assert(chars@.take(chars@.len() as int) == chars@);
    }
    out
}

/// Rendering one more line renders what came before, then that line unless
/// it is a comment.
pub proof fn lemma_each_line_step(
    lines: Seq<TextLineView>,
    i: int,
    f: spec_fn(TextLineView) -> Seq<char>,
)
    requires
        0 <= i < lines.len(),
    ensures
        each_line(lines.take(i + 1), f) == each_line(lines.take(i), f) + if lines[i].is_comment {
            Seq::empty()
        } else {
            f(lines[i])
        },
        any_text_line(lines.take(i + 1)) == (any_text_line(lines.take(i)) || !lines[i].is_comment),
        each_line(lines.take(0), f) == Seq::<char>::empty(),
        !any_text_line(lines.take(0)),
{
    assert(lines.take(i + 1).drop_last() == lines.take(i));
}

/// Whether `key` is among the parameter keys or the bare arguments of a
/// block.
pub fn has_param(block: &Block, key: &str) -> (r: bool)
    ensures
        r == has_key(block@, key@),
{
    let mut i: usize = 0;
    while i < block.params.len()
        invariant
            i <= block.params@.len(),
            forall|j: int| 0 <= j < i ==> (#[trigger] block@.params[j]).key != key@,
        decreases block.params@.len() - i,
    {
        if str_eq(block.params[i].key.as_str(), key) {
            assert(block@.params[i as int].key == key@);
            return true;
        }
        i += 1;
    }
    let mut k: usize = 0;
    while k < block.args.len()
        invariant
            k <= block.args@.len(),
            forall|j: int|
                0 <= j < block@.params.len() ==> (#[trigger] block@.params[j]).key != key@,
            forall|j: int| 0 <= j < k ==> #[trigger] block@.args[j] != key@,
        decreases block.args@.len() - k,
    {
        if str_eq(block.args[k].as_str(), key) {
            assert(block@.args[k as int] == key@);
            return true;
        }
        k += 1;
    }
    false
}

/// The style of a `list` block.
pub fn list_style(block: &Block) -> (r: ListStyle)
    ensures
        r == style_of(block@),
{
    if has_param(block, "bullet") {
        return ListStyle::Bullet;
    }
    if has_param(block, "line") {
        return ListStyle::Line;
    }
    ListStyle::Bullet
}

/// The value of the first parameter with the given key, or the empty string.
pub fn param_lookup<'a>(params: &'a [Attribute], key: &str) -> (r: &'a str)
    ensures
        r@ == param_value(attrs_view(params@), key@),
{
    let ghost all = attrs_view(params@);
    let mut i: usize = 0;
    proof {
        assert(all.skip(0) == all);
    }
    while i < params.len()
        invariant
            i <= params@.len(),
            all == attrs_view(params@),
            param_value(all.skip(i as int), key@) == param_value(all, key@),
        decreases params@.len() - i,
    {
        proof {
            assert(all.skip(i as int).drop_first() == all.skip(i + 1));
        }
        if str_eq(params[i].key.as_str(), key) {
            return params[i].value.as_str();
        }
        i += 1;
    }
    proof {
        reveal_strlit("");
        assert(""@ == Seq::<char>::empty());
    }
    ""
}

/// The title of a `part` block.
pub fn part_title_text(block: &Block) -> (title: String)
    ensures
        title@ == part_title(block@.args),
{
    if block.args.len() == 0 {
        return String::from_str("part");
    }
    let ghost all = block@.args;
    let mut title = String::new();
    let mut i: usize = 0;
    while i < block.args.len()
        invariant
            i <= block.args@.len(),
            all == texts_view(block.args@),
            i == 0 ==> title@ == Seq::<char>::empty(),
            i > 0 ==> title@ == join_args(all.take(i as int)),
        decreases block.args@.len() - i,
    {
        proof {
            assert(all.take(i + 1).drop_last() == all.take(i as int));
        }
        if i > 0 {
            push_char(&mut title, ' ');
        }
        title.append(block.args[i].as_str());
        i += 1;
    }
    proof {
        assert(all.take(all.len() as int) == all);
    }
    title
}

/// The digit of a heading level between 1 and 6.
pub fn heading_digit(level: usize) -> (r: char)
    ensures
        r == level_digit(level as int),
{
    if level == 1 {
        '1'
    } else if level == 2 {
        '2'
    } else if level == 3 {
        '3'
    } else if level == 4 {
        '4'
    } else if level == 5 {
        '5'
    } else {
        '6'
    }
}

/// Appends `level` number signs.
pub fn push_hashes(out: &mut String, level: usize)
    ensures
        final(out)@ == old(out)@ + hashes(level as int),
{
    let mut i: usize = 0;
    while i < level
        invariant
            i <= level,
            out@ == old(out)@ + hashes(i as int),
        decreases level - i,
    {
        push_char(out, '#');
        i += 1;
    }
}

/// Appends attributes as `data-` attributes with the given prefix.
pub fn push_data_attrs(out: &mut String, attrs: &[Attribute], prefix: &str)
    ensures
        final(out)@ == old(out)@ + data_attrs(attrs_view(attrs@), prefix@),
{
    let ghost all = attrs_view(attrs@);
    let mut i: usize = 0;
    while i < attrs.len()
        invariant
            i <= attrs@.len(),
            all == attrs_view(attrs@),
            out@ == old(out)@ + data_attrs(all.take(i as int), prefix@),
        decreases attrs@.len() - i,
    {
        let attr = &attrs[i];
        proof {
            assert(all.take(i + 1).drop_last() == all.take(i as int));
        }
        let key = sanitize_html_ident(attr.key.as_str());
        if !key.as_str().is_empty() {
            out.append(prefix);
            out.append(key.as_str());
            out.append("=\"");
            escape_html_into(out, attr.value.as_str());
            push_char(out, '"');
        }
        i += 1;
    }
    proof {
        assert(all.take(all.len() as int) == all);
    }
}

/// Appends attributes as `data-*` and, where given, parameters as
/// `data-param-*` HTML attributes.
pub fn push_html_attrs(out: &mut String, attrs: &[Attribute], params: Option<&[Attribute]>)
    ensures
        final(out)@ == old(out)@ + html_attrs(attrs_view(attrs@), params_view(params)),
{
    push_data_attrs(out, attrs, " data-");
    if let Some(params) = params {
        push_data_attrs(out, params, " data-param-");
    }
}

/// The view of optional parameters.
pub open spec fn params_view(params: Option<&[Attribute]>) -> Option<Seq<AttributeView>> {
    match params {
        Some(p) => Some(attrs_view(p@)),
        None => None,
    }
}

/// Appends a text node as Markdown.
pub fn render_text_markdown(text: &Text, out: &mut String)
    ensures
        final(out)@ == old(out)@ + md_text(text@),
{
    let ghost all = text@.lines;
    let mut i: usize = 0;
    proof {
        assert(each_line(all.take(0), md_plain()) == Seq::<char>::empty());
    }
    while i < text.lines.len()
        invariant
            i <= text.lines@.len(),
            all == lines_view(text.lines@),
            out@ == old(out)@ + each_line(all.take(i as int), md_plain()),
        decreases text.lines@.len() - i,
    {
        let line = &text.lines[i];
        proof {
            lemma_each_line_step(all, i as int, md_plain());
        }
        if !line.is_comment {
            push_indent(out, line.indent);
            out.append(line.value.as_str());
            push_char(out, '\n');
        }
        i += 1;
    }
    proof {
        assert(all.take(all.len() as int) == all);
    }
    push_char(out, '\n');
}

/// Appends the lines of a text node as Markdown list items; tells whether
/// there was any.
pub fn render_items_markdown(text: &Text, out: &mut String, style: ListStyle) -> (had_text: bool)
    ensures
        final(out)@ == old(out)@ + each_line(text@.lines, md_item(style)),
        had_text == any_text_line(text@.lines),
{
    let ghost all = text@.lines;
    let mut had_text = false;
    let mut i: usize = 0;
    proof {
        assert(each_line(all.take(0), md_item(style)) == Seq::<char>::empty());
        assert(!any_text_line(all.take(0)));
    }
    while i < text.lines.len()
        invariant
            i <= text.lines@.len(),
            all == lines_view(text.lines@),
            out@ == old(out)@ + each_line(all.take(i as int), md_item(style)),
            had_text == any_text_line(all.take(i as int)),
        decreases text.lines@.len() - i,
    {
        let line = &text.lines[i];
        proof {
            lemma_each_line_step(all, i as int, md_item(style));
        }
        if !line.is_comment {
            had_text = true;
            match style {
                ListStyle::Bullet => {
                    out.append("- ");
                    out.append(line.value.as_str());
                    push_char(out, '\n');
                },
                ListStyle::Line => {
                    out.append(line.value.as_str());
                    push_char(out, '\n');
                },
            }
        }
        i += 1;
    }
    proof {
        assert(all.take(all.len() as int) == all);
    }
    had_text
}

/// Appends the lines of a text node as bare lines.
pub fn render_code_lines_markdown(text: &Text, out: &mut String)
    ensures
        final(out)@ == old(out)@ + each_line(text@.lines, md_code_line()),
{
    let ghost all = text@.lines;
    let mut i: usize = 0;
    proof {
        assert(each_line(all.take(0), md_code_line()) == Seq::<char>::empty());
    }
    while i < text.lines.len()
        invariant
            i <= text.lines@.len(),
            all == lines_view(text.lines@),
            out@ == old(out)@ + each_line(all.take(i as int), md_code_line()),
        decreases text.lines@.len() - i,
    {
        let line = &text.lines[i];
        proof {
            lemma_each_line_step(all, i as int, md_code_line());
        }
        if !line.is_comment {
            out.append(line.value.as_str());
            push_char(out, '\n');
        }
        i += 1;
    }
    proof {
        assert(all.take(all.len() as int) == all);
    }
}

/// Appends a text node as HTML paragraphs.
pub fn render_text_html(text: &Text, out: &mut String)
    ensures
        final(out)@ == old(out)@ + html_text(text@),
{
    let ghost all = text@.lines;
    let mut i: usize = 0;
    proof {
        assert(each_line(all.take(0), html_paragraph()) == Seq::<char>::empty());
    }
    while i < text.lines.len()
        invariant
            i <= text.lines@.len(),
            all == lines_view(text.lines@),
            out@ == old(out)@ + each_line(all.take(i as int), html_paragraph()),
        decreases text.lines@.len() - i,
    {
        let line = &text.lines[i];
        proof {
            lemma_each_line_step(all, i as int, html_paragraph());
        }
        if !line.is_comment {
            out.append("<p>");
            escape_html_into(out, line.value.as_str());
            out.append("</p>\n");
        }
        i += 1;
    }
    proof {
        assert(all.take(all.len() as int) == all);
    }
}

/// Appends the lines of a text node as HTML list items.
pub fn render_items_html(text: &Text, out: &mut String, style: ListStyle)
    ensures
        final(out)@ == old(out)@ + each_line(text@.lines, html_item(style)),
{
    let ghost all = text@.lines;
    let mut i: usize = 0;
    proof {
        assert(each_line(all.take(0), html_item(style)) == Seq::<char>::empty());
    }
    while i < text.lines.len()
        invariant
            i <= text.lines@.len(),
            all == lines_view(text.lines@),
            out@ == old(out)@ + each_line(all.take(i as int), html_item(style)),
        decreases text.lines@.len() - i,
    {
        let line = &text.lines[i];
        proof {
            lemma_each_line_step(all, i as int, html_item(style));
        }
        if !line.is_comment {
            match style {
                ListStyle::Bullet => {
                    out.append("<li>");
                    escape_html_into(out, line.value.as_str());
                    out.append("</li>\n");
                },
                ListStyle::Line => {
                    out.append("<div class=\"lmm-line\">");
                    escape_html_into(out, line.value.as_str());
                    out.append("</div>\n");
                },
            }
        }
        i += 1;
    }
    proof {
        assert(all.take(all.len() as int) == all);
    }
}

/// Appends the lines of a text node as escaped bare lines.
pub fn render_code_lines_html(text: &Text, out: &mut String)
    ensures
        final(out)@ == old(out)@ + each_line(text@.lines, html_code_line()),
{
    let ghost all = text@.lines;
    let mut i: usize = 0;
    proof {
        assert(each_line(all.take(0), html_code_line()) == Seq::<char>::empty());
    }
    while i < text.lines.len()
        invariant
            i <= text.lines@.len(),
            all == lines_view(text.lines@),
            out@ == old(out)@ + each_line(all.take(i as int), html_code_line()),
        decreases text.lines@.len() - i,
    {
        let line = &text.lines[i];
        proof {
            lemma_each_line_step(all, i as int, html_code_line());
        }
        if !line.is_comment {
            escape_html_into(out, line.value.as_str());
            push_char(out, '\n');
        }
        i += 1;
    }
    proof {
        assert(all.take(all.len() as int) == all);
    }
}

/// Rendering one more node renders what came before, then that node.
pub proof fn lemma_nodes_step(nodes: Seq<Node>, i: int)
    requires
        0 <= i < nodes.len(),
    ensures
        nodes_view(nodes).len() == nodes.len(),
        nodes_view(nodes)[i] == node_view(nodes[i]),
        nodes_view(nodes).take(i + 1).drop_last() == nodes_view(nodes).take(i),
        nodes_view(nodes).take(i + 1).last() == node_view(nodes[i]),
        nodes_view(nodes).take(nodes.len() as int) == nodes_view(nodes),
{
    lemma_nodes_view(nodes);
}

/// Appends the lines of the text nodes among `nodes` as bare lines.
pub fn render_text_only_markdown(nodes: &[Node], out: &mut String)
    ensures
        final(out)@ == old(out)@ + text_only(nodes_view(nodes@), md_code_line()),
{
    let ghost all = nodes_view(nodes@);
    let mut i: usize = 0;
    proof {
        lemma_nodes_view(nodes@);
    }
    while i < nodes.len()
        invariant
            i <= nodes@.len(),
            all == nodes_view(nodes@),
            all.len() == nodes@.len(),
            out@ == old(out)@ + text_only(all.take(i as int), md_code_line()),
        decreases nodes@.len() - i,
    {
        proof {
            lemma_nodes_step(nodes@, i as int);
        }
        match &nodes[i] {
            Node::Text(text) => {
                render_code_lines_markdown(text, out);
            },
            Node::Block(_) => {},
        }
        i += 1;
    }
    proof {
        assert(all.take(all.len() as int) == all);
    }
}

/// Appends the lines of the text nodes among `nodes` as escaped bare lines.
pub fn render_text_only_html(nodes: &[Node], out: &mut String)
    ensures
        final(out)@ == old(out)@ + text_only(nodes_view(nodes@), html_code_line()),
{
    let ghost all = nodes_view(nodes@);
    let mut i: usize = 0;
    proof {
        lemma_nodes_view(nodes@);
    }
    while i < nodes.len()
        invariant
            i <= nodes@.len(),
            all == nodes_view(nodes@),
            all.len() == nodes@.len(),
            out@ == old(out)@ + text_only(all.take(i as int), html_code_line()),
        decreases nodes@.len() - i,
    {
        proof {
            lemma_nodes_step(nodes@, i as int);
        }
        match &nodes[i] {
            Node::Text(text) => {
                render_code_lines_html(text, out);
            },
            Node::Block(_) => {},
        }
        i += 1;
    }
    proof {
        assert(all.take(all.len() as int) == all);
    }
}

/// Appends a sequence of nodes as Markdown.
pub fn render_nodes_markdown(nodes: &[Node], out: &mut String, part_level: usize)
    ensures
        final(out)@ == old(out)@ + md_nodes(nodes_view(nodes@), part_level as int),
    decreases nodes@, 1int,
{
    let ghost all = nodes_view(nodes@);
    let mut i: usize = 0;
    proof {
        lemma_nodes_view(nodes@);
    }
    while i < nodes.len()
        invariant
            i <= nodes@.len(),
            all == nodes_view(nodes@),
            all.len() == nodes@.len(),
            out@ == old(out)@ + md_nodes(all.take(i as int), part_level as int),
        decreases nodes@.len() - i,
    {
        proof {
            lemma_nodes_step(nodes@, i as int);
        }
        match &nodes[i] {
            Node::Text(text) => {
                assert(md_node(all[i as int], part_level as int) == md_text(text@));
                render_text_markdown(text, out);
            },
            Node::Block(block) => {
                assert(md_node(all[i as int], part_level as int) == md_block(
                    block@,
                    part_level as int,
                ));
                render_block_markdown(block, out, part_level);
            },
        }
        i += 1;
    }
    proof {
        assert(all.take(all.len() as int) == all);
    }
}

/// Appends a block as Markdown.
pub fn render_block_markdown(block: &Block, out: &mut String, part_level: usize)
    ensures
        final(out)@ == old(out)@ + md_block(block@, part_level as int),
    decreases block, 2int,
{
    let name = block.name.as_str();
    if str_eq(name, "part") {
        let level: usize = if part_level < 5 {
            part_level + 1
        } else {
            6
        };
        let title = part_title_text(block);
        push_hashes(out, level);
        push_char(out, ' ');
        out.append(title.as_str());
        out.append("\n\n");
        let inner: usize = if part_level < 6 {
            part_level + 1
        } else {
            part_level
        };
        render_nodes_markdown(block.nodes.as_slice(), out, inner);
    } else if str_eq(name, "list") {
        let style = list_style(block);
        render_list_markdown(block, out, style);
    } else if str_eq(name, "code") {
        let lang = param_lookup(block.params.as_slice(), "lang");
        out.append("```");
        if !lang.is_empty() {
            out.append(lang);
        }
        push_char(out, '\n');
        render_text_only_markdown(block.nodes.as_slice(), out);
        out.append("```\n\n");
    } else {
        render_nodes_markdown(block.nodes.as_slice(), out, part_level);
    }
}

/// Appends the children of a `list` block as Markdown.
pub fn render_list_markdown(block: &Block, out: &mut String, style: ListStyle)
    ensures
        final(out)@ == old(out)@ + md_list_children(block@.nodes, style) + if any_text(
            block@.nodes,
        ) {
            seq!['\n']
        } else {
            Seq::<char>::empty()
        },
    decreases block, 1int,
{
    let nodes = block.nodes.as_slice();
    let ghost all = nodes_view(nodes@);
    let mut had_text = false;
    let mut i: usize = 0;
    proof {
        lemma_nodes_view(nodes@);
    }
    while i < nodes.len()
        invariant
            i <= nodes@.len(),
            nodes@ == block.nodes@,
            all == nodes_view(nodes@),
            all.len() == nodes@.len(),
            out@ == old(out)@ + md_list_children(all.take(i as int), style),
            had_text == any_text(all.take(i as int)),
        decreases nodes@.len() - i,
    {
        proof {
            lemma_nodes_step(nodes@, i as int);
        }
        match &nodes[i] {
            Node::Text(text) => {
                let any = render_items_markdown(text, out, style);
                had_text = had_text || any;
            },
            Node::Block(child) => {
                render_block_markdown(child, out, 0);
            },
        }
        i += 1;
    }
    proof {
        assert(all.take(all.len() as int) == all);
    }
    if had_text {
        push_char(out, '\n');
    }
}

/// Appends a sequence of nodes as HTML.
pub fn render_nodes_html(nodes: &[Node], out: &mut String, part_level: usize)
    ensures
        final(out)@ == old(out)@ + html_nodes(nodes_view(nodes@), part_level as int),
    decreases nodes@, 1int,
{
    let ghost all = nodes_view(nodes@);
    let mut i: usize = 0;
    proof {
        lemma_nodes_view(nodes@);
    }
    while i < nodes.len()
        invariant
            i <= nodes@.len(),
            all == nodes_view(nodes@),
            all.len() == nodes@.len(),
            out@ == old(out)@ + html_nodes(all.take(i as int), part_level as int),
        decreases nodes@.len() - i,
    {
        proof {
            lemma_nodes_step(nodes@, i as int);
        }
        match &nodes[i] {
            Node::Text(text) => {
                assert(html_node(all[i as int], part_level as int) == html_text(text@));
                render_text_html(text, out);
            },
            Node::Block(block) => {
                assert(html_node(all[i as int], part_level as int) == html_block(
                    block@,
                    part_level as int,
                ));
                render_block_html(block, out, part_level);
            },
        }
        i += 1;
    }
    proof {
        assert(all.take(all.len() as int) == all);
    }
}

/// Appends a block as HTML.
#[verifier::rlimit(80)]
#[verifier::spinoff_prover]
pub fn render_block_html(block: &Block, out: &mut String, part_level: usize)
    ensures
        final(out)@ == old(out)@ + html_block(block@, part_level as int),
    decreases block, 2int,
{
    let name = block.name.as_str();
    if str_eq(name, "part") {
        let level: usize = if part_level < 5 {
            part_level + 1
        } else {
            6
        };
        let title = part_title_text(block);
        out.append("<section class=\"lmm-part\"");
        push_html_attrs(out, block.attrs.as_slice(), Some(block.params.as_slice()));
        out.append(">\n");
        out.append("<h");
        push_char(out, heading_digit(level));
        push_char(out, '>');
        escape_html_into(out, title.as_str());
        out.append("</h");
        push_char(out, heading_digit(level));
        out.append(">\n");
        let inner: usize = if part_level < 6 {
            part_level + 1
        } else {
            part_level
        };
        render_nodes_html(block.nodes.as_slice(), out, inner);
        out.append("</section>\n");
    } else if str_eq(name, "list") {
        let style = list_style(block);
        render_list_html(block, out, style);
    } else if str_eq(name, "code") {
        let lang = param_lookup(block.params.as_slice(), "lang");
        out.append("<pre class=\"lmm-code\"");
        push_html_attrs(out, block.attrs.as_slice(), Some(block.params.as_slice()));
        out.append("><code");
        if !lang.is_empty() {
            out.append(" class=\"language-");
            escape_html_into(out, lang);
            push_char(out, '"');
        }
        push_char(out, '>');
        render_text_only_html(block.nodes.as_slice(), out);
        out.append("</code></pre>\n");
    } else {
        let ident = sanitize_html_ident(name);
        out.append("<div class=\"");
        out.append("lmm-block lmm-block-");
        out.append(ident.as_str());
        push_char(out, '"');
        push_html_attrs(out, block.attrs.as_slice(), Some(block.params.as_slice()));
        out.append(">\n");
        render_nodes_html(block.nodes.as_slice(), out, part_level);
        out.append("</div>\n");
    }
}

/// Appends a `list` block as HTML.
pub fn render_list_html(block: &Block, out: &mut String, style: ListStyle)
    ensures
        final(out)@ == old(out)@ + (match style {
            ListStyle::Bullet => "<ul class=\"lmm-list\""@ + html_attrs(
                block@.attrs,
                Some(block@.params),
            ) + ">\n"@ + html_list_children(block@.nodes, ListStyle::Bullet) + "</ul>\n"@,
            ListStyle::Line => "<div class=\"lmm-lines\""@ + html_attrs(
                block@.attrs,
                Some(block@.params),
            ) + ">\n"@ + html_list_children(block@.nodes, ListStyle::Line) + "</div>\n"@,
        }),
    decreases block, 1int,
{
    match style {
        ListStyle::Bullet => {
            out.append("<ul class=\"lmm-list\"");
        },
        ListStyle::Line => {
            out.append("<div class=\"lmm-lines\"");
        },
    }
    push_html_attrs(out, block.attrs.as_slice(), Some(block.params.as_slice()));
    out.append(">\n");
    let ghost start = out@;
    let nodes = block.nodes.as_slice();
    let ghost all = nodes_view(nodes@);
    let mut i: usize = 0;
    proof {
        lemma_nodes_view(nodes@);
    }
    while i < nodes.len()
        invariant
            i <= nodes@.len(),
            nodes@ == block.nodes@,
            all == nodes_view(nodes@),
            all.len() == nodes@.len(),
            out@ == start + html_list_children(all.take(i as int), style),
        decreases nodes@.len() - i,
    {
        proof {
            lemma_nodes_step(nodes@, i as int);
        }
        match &nodes[i] {
            Node::Text(text) => {
                render_items_html(text, out, style);
            },
            Node::Block(child) => {
                render_block_html(child, out, 0);
            },
        }
        i += 1;
    }
    proof {
        assert(all.take(all.len() as int) == all);
    }
    match style {
        ListStyle::Bullet => {
            out.append("</ul>\n");
        },
        ListStyle::Line => {
            out.append("</div>\n");
        },
    }
}

/// Renders a document as Markdown.
pub fn render_markdown(document: &Document) -> (out: String)
    ensures
        out@ == markdown_of(document@),
{
    let mut out = String::new();
    render_nodes_markdown(document.nodes.as_slice(), &mut out, 0);
    trim_trailing_newlines(&mut out);
    out
}

/// Renders a document as HTML.
pub fn render_html(document: &Document) -> (out: String)
    ensures
        out@ == html_of(document@),
{
    let mut out = String::new();
    out.append("<div class=\"lmm-document\"");
    push_html_attrs(&mut out, document.attrs.as_slice(), None);
    out.append(">\n");
    render_nodes_html(document.nodes.as_slice(), &mut out, 0);
    out.append("</div>\n");
    out
}

} // verus!
