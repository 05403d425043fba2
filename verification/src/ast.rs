//! The document model: positions, spans, diagnostics and the node tree, each
//! with the mathematical view that the contracts of the crate speak about.

use smol_str::SmolStr;
use vstd::prelude::*;

use crate::text::smol_text;

verus! {

/// A zero-based location in the source.  The column is kept in three units at
/// once: UTF-8 bytes, UTF-16 code units and Unicode scalar values.
#[derive(Debug, Clone, Copy, PartialEq, Eq, PartialOrd, Ord, Hash)]
pub struct Position {
    /// Line index, counting newline-terminated lines from zero.
    pub line: usize,
    /// Column in UTF-8 bytes.
    pub col8: usize,
    /// Column in UTF-16 code units.
    pub col16: usize,
    /// Column in Unicode scalar values.
    pub col32: usize,
}

/// The mathematical value of a [`Position`].
pub struct PositionView {
    pub line: int,
    pub col8: int,
    pub col16: int,
    pub col32: int,
}

impl View for Position {
    type V = PositionView;

    open spec fn view(&self) -> PositionView {
        PositionView {
            line: self.line as int,
            col8: self.col8 as int,
            col16: self.col16 as int,
            col32: self.col32 as int,
        }
    }
}

impl Position {
    pub fn new(line: usize, col8: usize, col16: usize, col32: usize) -> (p: Position)
        ensures
            p == (Position { line, col8, col16, col32 }),
    {
        Position { line, col8, col16, col32 }
    }
}

/// A half-open range of positions; `end` is exclusive and may lie on a later
/// line than `start`.
#[derive(Debug, Clone, Copy, PartialEq, Eq, PartialOrd, Ord, Hash)]
pub struct Span {
    pub start: Position,
    pub end: Position,
}

/// The mathematical value of a [`Span`].
pub struct SpanView {
    pub start: PositionView,
    pub end: PositionView,
}

impl View for Span {
    type V = SpanView;

    open spec fn view(&self) -> SpanView {
        SpanView { start: self.start@, end: self.end@ }
    }
}

impl Span {
    pub fn new(start: Position, end: Position) -> (s: Span)
        ensures
            s == (Span { start, end }),
    {
        Span { start, end }
    }
}

/// How serious a diagnostic is.  Neither severity stops the parse.
#[derive(Debug, Clone, PartialEq, Eq, PartialOrd, Ord, Hash)]
pub enum Severity {
    Error,
    Warning,
}

/// An advisory message tied to a source span.
#[derive(Debug, Clone, PartialEq, Eq, PartialOrd, Ord, Hash)]
pub struct Diagnostic {
    pub span: Span,
    pub severity: Severity,
    pub message: SmolStr,
}

/// The mathematical value of a [`Diagnostic`].
pub struct DiagnosticView {
    pub span: SpanView,
    pub severity: Severity,
    pub message: Seq<char>,
}

impl View for Diagnostic {
    type V = DiagnosticView;

    open spec fn view(&self) -> DiagnosticView {
        DiagnosticView {
            span: self.span@,
            severity: self.severity,
            message: smol_text(self.message),
        }
    }
}

/// A key/value pair with the span it was read from.
#[derive(Debug, Clone, PartialEq, Eq, PartialOrd, Ord, Hash)]
pub struct Attribute {
    pub key: SmolStr,
    pub value: SmolStr,
    pub span: Span,
}

/// The mathematical value of an [`Attribute`].
pub struct AttributeView {
    pub key: Seq<char>,
    pub value: Seq<char>,
    pub span: SpanView,
}

impl View for Attribute {
    type V = AttributeView;

    open spec fn view(&self) -> AttributeView {
        AttributeView {
            key: smol_text(self.key),
            value: smol_text(self.value),
            span: self.span@,
        }
    }
}

/// One line of text: its weighted indentation, its unescaped content, where
/// the content stood, and whether the line was a comment.
#[derive(Debug, Clone, PartialEq, Eq, PartialOrd, Ord, Hash)]
pub struct TextLine {
    pub indent: usize,
    pub value: SmolStr,
    pub span: Span,
    pub is_comment: bool,
}

/// The mathematical value of a [`TextLine`].
pub struct TextLineView {
    pub indent: int,
    pub value: Seq<char>,
    pub span: SpanView,
    pub is_comment: bool,
}

impl View for TextLine {
    type V = TextLineView;

    open spec fn view(&self) -> TextLineView {
        TextLineView {
            indent: self.indent as int,
            value: smol_text(self.value),
            span: self.span@,
            is_comment: self.is_comment,
        }
    }
}

/// A run of text lines, comment and non-comment lines interleaved as they
/// were buffered.
#[derive(Debug, Clone, PartialEq, Eq, PartialOrd, Ord, Hash)]
pub struct Text {
    pub lines: Vec<TextLine>,
}

/// The mathematical value of a [`Text`].
pub struct TextView {
    pub lines: Seq<TextLineView>,
}

impl View for Text {
    type V = TextView;

    open spec fn view(&self) -> TextView {
        TextView { lines: lines_view(self.lines@) }
    }
}

/// A named container: header data, leading attribute lines, and children.
/// The span covers the header only, from `@` through the opening `{`.
#[derive(Debug, PartialEq, Eq, PartialOrd, Ord, Hash)]
pub struct Block {
    pub name: SmolStr,
    pub args: Vec<SmolStr>,
    pub params: Vec<Attribute>,
    pub attrs: Vec<Attribute>,
    pub nodes: Vec<Node>,
    pub span: Span,
}

/// The mathematical value of a [`Block`].
pub struct BlockView {
    pub name: Seq<char>,
    pub args: Seq<Seq<char>>,
    pub params: Seq<AttributeView>,
    pub attrs: Seq<AttributeView>,
    pub nodes: Seq<NodeView>,
    pub span: SpanView,
}

/// A node of the document tree.
#[derive(Debug, PartialEq, Eq, PartialOrd, Ord, Hash)]
pub enum Node {
    Block(Block),
    Text(Text),
}

/// The mathematical value of a [`Node`].
pub enum NodeView {
    Block(BlockView),
    Text(TextView),
}

/// The parsed document: top-level attributes in source order, then nodes.
#[derive(Debug, PartialEq, Eq, PartialOrd, Ord, Hash)]
pub struct Document {
    pub attrs: Vec<Attribute>,
    pub nodes: Vec<Node>,
}

/// The mathematical value of a [`Document`].
pub struct DocumentView {
    pub attrs: Seq<AttributeView>,
    pub nodes: Seq<NodeView>,
}

/// The views of a sequence of strings, element by element.
pub open spec fn texts_view(s: Seq<SmolStr>) -> Seq<Seq<char>> {
    Seq::new(s.len(), |i: int| smol_text(s[i]))
}

/// The views of a sequence of attributes, element by element.
pub open spec fn attrs_view(s: Seq<Attribute>) -> Seq<AttributeView> {
    Seq::new(s.len(), |i: int| s[i]@)
}

/// The views of a sequence of text lines, element by element.
pub open spec fn lines_view(s: Seq<TextLine>) -> Seq<TextLineView> {
    Seq::new(s.len(), |i: int| s[i]@)
}

/// The views of a sequence of diagnostics, element by element.
pub open spec fn diags_view(s: Seq<Diagnostic>) -> Seq<DiagnosticView> {
    Seq::new(s.len(), |i: int| s[i]@)
}

/// The view of a node: the views of its parts, children included.
pub open spec fn node_view(n: Node) -> NodeView
    decreases n,
{
    match n {
        Node::Block(b) => NodeView::Block(
            BlockView {
                name: smol_text(b.name),
                args: texts_view(b.args@),
                params: attrs_view(b.params@),
                attrs: attrs_view(b.attrs@),
                nodes: nodes_view(b.nodes@),
                span: b.span@,
            },
        ),
        Node::Text(t) => NodeView::Text(t@),
    }
}

/// The views of a sequence of nodes, element by element.
pub open spec fn nodes_view(s: Seq<Node>) -> Seq<NodeView>
    decreases s,
{
    if s.len() == 0 {
        Seq::empty()
    } else {
        nodes_view(s.drop_last()).push(node_view(s.last()))
    }
}

impl View for Node {
    type V = NodeView;

    open spec fn view(&self) -> NodeView {
        node_view(*self)
    }
}

impl View for Block {
    type V = BlockView;

    open spec fn view(&self) -> BlockView {
        BlockView {
            name: smol_text(self.name),
            args: texts_view(self.args@),
            params: attrs_view(self.params@),
            attrs: attrs_view(self.attrs@),
            nodes: nodes_view(self.nodes@),
            span: self.span@,
        }
    }
}

impl View for Document {
    type V = DocumentView;

    open spec fn view(&self) -> DocumentView {
        DocumentView { attrs: attrs_view(self.attrs@), nodes: nodes_view(self.nodes@) }
    }
}

/// `nodes_view` maps element by element.
pub proof fn lemma_nodes_view(s: Seq<Node>)
    ensures
        nodes_view(s).len() == s.len(),
        forall|i: int| 0 <= i < s.len() ==> #[trigger] nodes_view(s)[i] == node_view(s[i]),
    decreases s.len(),
{
    if s.len() > 0 {
        lemma_nodes_view(s.drop_last());
    }
}

/// Appending a node appends its view.
pub proof fn lemma_nodes_view_push(s: Seq<Node>, n: Node)
    ensures
        nodes_view(s.push(n)) == nodes_view(s).push(node_view(n)),
{
    assert(s.push(n).drop_last() == s);
}

/// A copy of a list of strings.
pub fn clone_texts(v: &Vec<SmolStr>) -> (r: Vec<SmolStr>)
    ensures
        texts_view(r@) == texts_view(v@),
{
    let mut r: Vec<SmolStr> = Vec::new();
    let mut i: usize = 0;
    while i < v.len()
        invariant
            i <= v@.len(),
            r@.len() == i,
            forall|j: int| 0 <= j < i ==> smol_text(#[trigger] r@[j]) == smol_text(v@[j]),
        decreases v@.len() - i,
    {
        r.push(v[i].clone());
        i += 1;
    }
    assert(texts_view(r@) =~= texts_view(v@));
    r
}

/// A copy of an attribute.
pub fn clone_attribute(a: &Attribute) -> (r: Attribute)
    ensures
        r@ == a@,
{
    Attribute { key: a.key.clone(), value: a.value.clone(), span: a.span }
}

/// A copy of a list of attributes.
pub fn clone_attributes(v: &Vec<Attribute>) -> (r: Vec<Attribute>)
    ensures
        attrs_view(r@) == attrs_view(v@),
{
    let mut r: Vec<Attribute> = Vec::new();
    let mut i: usize = 0;
    while i < v.len()
        invariant
            i <= v@.len(),
            r@.len() == i,
            forall|j: int| 0 <= j < i ==> (#[trigger] r@[j])@ == v@[j]@,
        decreases v@.len() - i,
    {
        r.push(clone_attribute(&v[i]));
        i += 1;
    }
    assert(attrs_view(r@) =~= attrs_view(v@));
    r
}

/// A copy of a text node.
pub fn clone_text(t: &Text) -> (r: Text)
    ensures
        r@ == t@,
{
    let mut lines: Vec<TextLine> = Vec::new();
    let mut i: usize = 0;
    while i < t.lines.len()
        invariant
            i <= t.lines@.len(),
            lines@.len() == i,
            forall|j: int| 0 <= j < i ==> (#[trigger] lines@[j])@ == t.lines@[j]@,
        decreases t.lines@.len() - i,
    {
        let l = &t.lines[i];
        lines.push(
            TextLine {
                indent: l.indent,
                value: l.value.clone(),
                span: l.span,
                is_comment: l.is_comment,
            },
        );
        i += 1;
    }
    let r = Text { lines };
    assert(r@.lines =~= t@.lines);
    r
}

/// A copy of a node, children included.
pub fn clone_node(n: &Node) -> (r: Node)
    ensures
        r@ == n@,
    decreases n,
{
    match n {
        Node::Text(t) => Node::Text(clone_text(t)),
        Node::Block(b) => Node::Block(clone_block(b)),
    }
}

/// A copy of a block, children included.
pub fn clone_block(b: &Block) -> (r: Block)
    ensures
        r@ == b@,
    decreases b,
{
    Block {
        name: b.name.clone(),
        args: clone_texts(&b.args),
        params: clone_attributes(&b.params),
        attrs: clone_attributes(&b.attrs),
        nodes: clone_nodes(&b.nodes),
        span: b.span,
    }
}

/// A copy of a list of nodes, children included.
pub fn clone_nodes(v: &Vec<Node>) -> (r: Vec<Node>)
    ensures
        nodes_view(r@) == nodes_view(v@),
    decreases v,
{
    let mut r: Vec<Node> = Vec::new();
    let mut i: usize = 0;
    while i < v.len()
        invariant
            i <= v@.len(),
            r@.len() == i,
            forall|j: int| 0 <= j < i ==> node_view(#[trigger] r@[j]) == node_view(v@[j]),
        decreases v@.len() - i,
    {
        r.push(clone_node(&v[i]));
        i += 1;
    }
    proof {
        lemma_nodes_view(r@);
        lemma_nodes_view(v@);
        assert(nodes_view(r@) =~= nodes_view(v@));
    }
    r
}

impl Clone for Node {
    fn clone(&self) -> (r: Node)
        ensures
            r@ == self@,
    {
        clone_node(self)
    }
}

impl Clone for Block {
    fn clone(&self) -> (r: Block)
        ensures
            r@ == self@,
    {
        clone_block(self)
    }
}

impl Clone for Document {
    fn clone(&self) -> (r: Document)
        ensures
            r@ == self@,
    {
        Document { attrs: clone_attributes(&self.attrs), nodes: clone_nodes(&self.nodes) }
    }
}

} // verus!
