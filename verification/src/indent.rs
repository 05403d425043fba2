//! The options of a parse weigh indentation and do nothing else: two parses
//! of one source differ at most in the `indent` of their text lines.

use vstd::prelude::*;

use crate::ast::{BlockView, DiagnosticView, NodeView, TextLineView, TextView};
use crate::header::close_delim;
use crate::lines::{
    comment_segment, comment_shape, dollar_shape, header_at, push_opt, text_segment, unescape_lines,
    whole_line,
};
use crate::model::{
    attrs_loop, clamp, document_model, flush, header_attempt, lemma_attrs_loop_advances,
    lemma_header_attempt_advances, lemma_verbatim_loop_advances, nodes_loop, verbatim_loop,
    HeaderAttempt, NodesState,
};
use crate::options::ParseOptions;
use crate::scan::{
    find, is_blank, lemma_line_bounds, line_at, line_end, line_index, line_start, next_line,
};

verus! {

/// A line with its indent put to zero.
pub open spec fn without_indent(l: TextLineView) -> TextLineView {
    TextLineView { indent: 0, value: l.value, span: l.span, is_comment: l.is_comment }
}

/// Lines with their indents put to zero.
pub open spec fn lines_without_indent(lines: Seq<TextLineView>) -> Seq<TextLineView> {
    Seq::new(lines.len(), |i: int| without_indent(lines[i]))
}

/// A node with the indents of all its lines put to zero.
pub open spec fn node_without_indent(n: NodeView) -> NodeView
    decreases n, 0int,
{
    match n {
        NodeView::Text(t) => NodeView::Text(TextView { lines: lines_without_indent(t.lines) }),
        NodeView::Block(b) => NodeView::Block(
            BlockView {
                name: b.name,
                args: b.args,
                params: b.params,
                attrs: b.attrs,
                nodes: nodes_without_indent(b.nodes),
                span: b.span,
            },
        ),
    }
}

/// Nodes with the indents of all their lines put to zero.
pub open spec fn nodes_without_indent(nodes: Seq<NodeView>) -> Seq<NodeView>
    decreases nodes, 1int,
{
    if nodes.len() == 0 {
        Seq::empty()
    } else {
        nodes_without_indent(nodes.drop_last()).push(node_without_indent(nodes.last()))
    }
}

/// Two sequences of lines are the same but for indents.
pub open spec fn lines_alike(a: Seq<TextLineView>, b: Seq<TextLineView>) -> bool {
    lines_without_indent(a) == lines_without_indent(b)
}

/// Two sequences of nodes are the same but for indents.
pub open spec fn nodes_alike(a: Seq<NodeView>, b: Seq<NodeView>) -> bool {
    nodes_without_indent(a) == nodes_without_indent(b)
}

/// Two optional lines are both missing, or the same but for their indent.
pub open spec fn line_opt_alike(a: Option<TextLineView>, b: Option<TextLineView>) -> bool {
    match (a, b) {
        (Some(x), Some(y)) => without_indent(x) == without_indent(y),
        (None, None) => true,
        _ => false,
    }
}

/// Lines that are alike are as many, and alike one by one.
pub proof fn lemma_lines_alike(a: Seq<TextLineView>, b: Seq<TextLineView>)
    requires
        lines_alike(a, b),
    ensures
        a.len() == b.len(),
        forall|i: int| 0 <= i < a.len() ==> without_indent(#[trigger] a[i]) == without_indent(b[i]),
        lines_alike(unescape_lines(a), unescape_lines(b)),
{
    let x = lines_without_indent(a);
    let y = lines_without_indent(b);
    assert(x.len() == a.len() && y.len() == b.len());
    assert forall|i: int| 0 <= i < a.len() implies without_indent(#[trigger] a[i])
        == without_indent(b[i]) by {
        assert(x[i] == without_indent(a[i]));
        assert(y[i] == without_indent(b[i]));
    }
    assert(lines_without_indent(unescape_lines(a)) =~= lines_without_indent(unescape_lines(b)));
}

/// Appending lines that are alike to lines that are alike keeps them alike.
pub proof fn lemma_push_opt_alike(
    a: Seq<TextLineView>,
    b: Seq<TextLineView>,
    x: Option<TextLineView>,
    y: Option<TextLineView>,
)
    requires
        lines_alike(a, b),
        line_opt_alike(x, y),
    ensures
        lines_alike(push_opt(a, x), push_opt(b, y)),
{
    lemma_lines_alike(a, b);
    assert(lines_without_indent(push_opt(a, x)) =~= lines_without_indent(push_opt(b, y)));
}

/// Appending a node appends it without indents.
pub proof fn lemma_nodes_without_indent_push(nodes: Seq<NodeView>, n: NodeView)
    ensures
        nodes_without_indent(nodes.push(n)) == nodes_without_indent(nodes).push(
            node_without_indent(n),
        ),
{
    assert(nodes.push(n).drop_last() == nodes);
}

/// Flushing lines that are alike into nodes that are alike keeps the nodes
/// alike.
pub proof fn lemma_flush_alike(
    n1: Seq<NodeView>,
    n2: Seq<NodeView>,
    b1: Seq<TextLineView>,
    b2: Seq<TextLineView>,
)
    requires
        nodes_alike(n1, n2),
        lines_alike(b1, b2),
    ensures
        nodes_alike(flush(n1, b1), flush(n2, b2)),
{
    lemma_lines_alike(b1, b2);
    if b1.len() > 0 {
        lemma_text_alike(n1, n2, b1, b2);
    }
}

/// Appending text nodes of lines that are alike keeps the nodes alike.
pub proof fn lemma_text_alike(
    n1: Seq<NodeView>,
    n2: Seq<NodeView>,
    b1: Seq<TextLineView>,
    b2: Seq<TextLineView>,
)
    requires
        nodes_alike(n1, n2),
        lines_alike(b1, b2),
    ensures
        nodes_alike(
            n1.push(NodeView::Text(TextView { lines: unescape_lines(b1) })),
            n2.push(NodeView::Text(TextView { lines: unescape_lines(b2) })),
        ),
{
    lemma_lines_alike(b1, b2);
    lemma_nodes_without_indent_push(n1, NodeView::Text(TextView { lines: unescape_lines(b1) }));
    lemma_nodes_without_indent_push(n2, NodeView::Text(TextView { lines: unescape_lines(b2) }));
}

/// A text segment is the same under any options, but for its indent.
pub proof fn lemma_text_segment_alike(
    line: Seq<char>,
    li: int,
    start: int,
    end: int,
    o1: ParseOptions,
    o2: ParseOptions,
)
    ensures
        line_opt_alike(
            text_segment(line, li, start, end, o1),
            text_segment(line, li, start, end, o2),
        ),
        line_opt_alike(comment_segment(line, li, o1), comment_segment(line, li, o2)),
        line_opt_alike(whole_line(line, li, o1), whole_line(line, li, o2)),
{
}

/// A verbatim section is the same under any options, but for indents.
pub proof fn lemma_verbatim_loop_alike(
    s: Seq<char>,
    o1: ParseOptions,
    o2: ParseOptions,
    idx: int,
    l1: Seq<TextLineView>,
    l2: Seq<TextLineView>,
    diags: Seq<DiagnosticView>,
)
    requires
        0 <= idx <= s.len(),
        lines_alike(l1, l2),
    ensures
        ({
            let r1 = verbatim_loop(s, o1, idx, l1, diags);
            let r2 = verbatim_loop(s, o2, idx, l2, diags);
            &&& r1.idx == r2.idx
            &&& r1.diags == r2.diags
            &&& lines_alike(r1.lines, r2.lines)
        }),
    decreases s.len() - idx,
{
    if idx < s.len() {
        let line = line_at(s, idx);
        lemma_line_bounds(s, idx);
        if !dollar_shape(line) {
            let li = line_index(s, idx);
            lemma_text_segment_alike(line, li, 0, line.len() as int, o1, o2);
            lemma_push_opt_alike(l1, l2, whole_line(line, li, o1), whole_line(line, li, o2));
            lemma_verbatim_loop_alike(
                s,
                o1,
                o2,
                next_line(s, idx),
                push_opt(l1, whole_line(line, li, o1)),
                push_opt(l2, whole_line(line, li, o2)),
                diags,
            );
        }
    }
}

/// A node sequence is the same under any options, but for indents: the
/// scan ends at the same index, raises the same diagnostics, and builds
/// nodes that are alike.
#[verifier::rlimit(60)]
pub proof fn lemma_nodes_loop_alike(
    s: Seq<char>,
    o1: ParseOptions,
    o2: ParseOptions,
    closing: Option<Seq<char>>,
    st1: NodesState,
    st2: NodesState,
)
    requires
        0 <= st1.idx <= s.len(),
        st1.idx == st2.idx,
        st1.diags == st2.diags,
        nodes_alike(st1.nodes, st2.nodes),
        lines_alike(st1.text_buf, st2.text_buf),
    ensures
        ({
            let r1 = nodes_loop(s, o1, closing, st1);
            let r2 = nodes_loop(s, o2, closing, st2);
            &&& r1.idx == r2.idx
            &&& r1.diags == r2.diags
            &&& nodes_alike(r1.nodes, r2.nodes)
        }),
    decreases s.len() - st1.idx,
{
    let idx = st1.idx;
    if idx >= s.len() {
        lemma_flush_alike(st1.nodes, st2.nodes, st1.text_buf, st2.text_buf);
    } else {
        let ls = line_start(s, idx);
        let le = line_end(s, idx);
        let line = line_at(s, idx);
        let li = line_index(s, idx);
        let at_start = idx == ls;
        let close_at = match closing {
            Some(c) => find(s, c, idx, le),
            None => None,
        };
        lemma_line_bounds(s, idx);
        let nl = next_line(s, idx);
        if close_at.is_some() {
            let k = close_at.unwrap();
            lemma_text_segment_alike(line, li, idx - ls, k - ls, o1, o2);
            let g1 = text_segment(line, li, idx - ls, k - ls, o1);
            let g2 = text_segment(line, li, idx - ls, k - ls, o2);
            lemma_push_opt_alike(st1.text_buf, st2.text_buf, g1, g2);
            lemma_flush_alike(
                st1.nodes,
                st2.nodes,
                push_opt(st1.text_buf, g1),
                push_opt(st2.text_buf, g2),
            );
        } else if at_start && comment_shape(line) {
            lemma_text_segment_alike(line, li, 0, 0, o1, o2);
            let g1 = comment_segment(line, li, o1);
            let g2 = comment_segment(line, li, o2);
            lemma_push_opt_alike(st1.text_buf, st2.text_buf, g1, g2);
            lemma_nodes_loop_alike(
                s,
                o1,
                o2,
                closing,
                NodesState {
                    idx: nl,
                    nodes: st1.nodes,
                    text_buf: push_opt(st1.text_buf, g1),
                    diags: st1.diags,
                },
                NodesState {
                    idx: nl,
                    nodes: st2.nodes,
                    text_buf: push_opt(st2.text_buf, g2),
                    diags: st2.diags,
                },
            );
        } else if at_start && is_blank(line) {
            lemma_nodes_loop_alike(
                s,
                o1,
                o2,
                closing,
                NodesState { idx: nl, nodes: st1.nodes, text_buf: st1.text_buf, diags: st1.diags },
                NodesState { idx: nl, nodes: st2.nodes, text_buf: st2.text_buf, diags: st2.diags },
            );
        } else if at_start && dollar_shape(line) {
            lemma_verbatim_loop_advances(s, o1, nl, Seq::empty(), st1.diags);
            lemma_verbatim_loop_alike(s, o1, o2, nl, Seq::empty(), Seq::empty(), st1.diags);
            let v1 = verbatim_loop(s, o1, nl, Seq::empty(), st1.diags);
            let v2 = verbatim_loop(s, o2, nl, Seq::empty(), st2.diags);
            let f1 = flush(st1.nodes, st1.text_buf);
            let f2 = flush(st2.nodes, st2.text_buf);
            lemma_flush_alike(st1.nodes, st2.nodes, st1.text_buf, st2.text_buf);
            lemma_lines_alike(v1.lines, v2.lines);
            let n1 = if v1.lines.len() > 0 {
                f1.push(NodeView::Text(TextView { lines: unescape_lines(v1.lines) }))
            } else {
                f1
            };
            let n2 = if v2.lines.len() > 0 {
                f2.push(NodeView::Text(TextView { lines: unescape_lines(v2.lines) }))
            } else {
                f2
            };
            if v1.lines.len() > 0 {
                lemma_text_alike(f1, f2, v1.lines, v2.lines);
            }
            lemma_nodes_loop_alike(
                s,
                o1,
                o2,
                closing,
                NodesState { idx: v1.idx, nodes: n1, text_buf: Seq::empty(), diags: v1.diags },
                NodesState { idx: v2.idx, nodes: n2, text_buf: Seq::empty(), diags: v2.diags },
            );
        } else if at_start && header_at(line).is_some() {
            lemma_header_attempt_advances(s, idx);
            match header_attempt(s, idx) {
                HeaderAttempt::NotHeader => {},
                HeaderAttempt::Failed { idx: to, diag } => {
                    lemma_nodes_loop_alike(
                        s,
                        o1,
                        o2,
                        closing,
                        NodesState {
                            idx: to,
                            nodes: st1.nodes,
                            text_buf: st1.text_buf,
                            diags: st1.diags.push(diag),
                        },
                        NodesState {
                            idx: to,
                            nodes: st2.nodes,
                            text_buf: st2.text_buf,
                            diags: st2.diags.push(diag),
                        },
                    );
                },
                HeaderAttempt::Opened { idx: to, header, diags } => {
                    lemma_attrs_loop_advances(s, to, Seq::empty(), st1.diags + diags);
                    let a = attrs_loop(s, to, Seq::empty(), st1.diags + diags);
                    let inner = NodesState {
                        idx: a.idx,
                        nodes: Seq::empty(),
                        text_buf: Seq::empty(),
                        diags: a.diags,
                    };
                    let close = Some(close_delim(header.plus_count));
                    lemma_nodes_loop_alike(s, o1, o2, close, inner, inner);
                    let body1 = nodes_loop(s, o1, close, inner);
                    let body2 = nodes_loop(s, o2, close, inner);
                    let block1 = NodeView::Block(
                        BlockView {
                            name: header.name,
                            args: header.args,
                            params: header.params,
                            attrs: a.attrs,
                            nodes: body1.nodes,
                            span: header.span,
                        },
                    );
                    let block2 = NodeView::Block(
                        BlockView {
                            name: header.name,
                            args: header.args,
                            params: header.params,
                            attrs: a.attrs,
                            nodes: body2.nodes,
                            span: header.span,
                        },
                    );
                    assert(node_without_indent(block1) == node_without_indent(block2));
                    let f1 = flush(st1.nodes, st1.text_buf);
                    let f2 = flush(st2.nodes, st2.text_buf);
                    lemma_flush_alike(st1.nodes, st2.nodes, st1.text_buf, st2.text_buf);
                    lemma_nodes_without_indent_push(f1, block1);
                    lemma_nodes_without_indent_push(f2, block2);
                    lemma_nodes_loop_alike(
                        s,
                        o1,
                        o2,
                        closing,
                        NodesState {
                            idx: clamp(body1.idx, a.idx, s.len() as int),
                            nodes: f1.push(block1),
                            text_buf: Seq::empty(),
                            diags: body1.diags,
                        },
                        NodesState {
                            idx: clamp(body2.idx, a.idx, s.len() as int),
                            nodes: f2.push(block2),
                            text_buf: Seq::empty(),
                            diags: body2.diags,
                        },
                    );
                },
            }
        } else {
            lemma_text_segment_alike(line, li, idx - ls, le - ls, o1, o2);
            let g1 = text_segment(line, li, idx - ls, le - ls, o1);
            let g2 = text_segment(line, li, idx - ls, le - ls, o2);
            lemma_push_opt_alike(st1.text_buf, st2.text_buf, g1, g2);
            lemma_nodes_loop_alike(
                s,
                o1,
                o2,
                closing,
                NodesState {
                    idx: nl,
                    nodes: st1.nodes,
                    text_buf: push_opt(st1.text_buf, g1),
                    diags: st1.diags,
                },
                NodesState {
                    idx: nl,
                    nodes: st2.nodes,
                    text_buf: push_opt(st2.text_buf, g2),
                    diags: st2.diags,
                },
            );
        }
    }
}

/// The options weigh indentation and do nothing else: under any two
/// options a source gives the same diagnostics, the same attributes, and
/// nodes that differ at most in the `indent` of their text lines.
pub proof fn lemma_options_weigh_indent_only(s: Seq<char>, o1: ParseOptions, o2: ParseOptions)
    ensures
        document_model(s, o1).diagnostics == document_model(s, o2).diagnostics,
        document_model(s, o1).document.attrs == document_model(s, o2).document.attrs,
        nodes_alike(document_model(s, o1).document.nodes, document_model(s, o2).document.nodes),
{
    let none = Seq::<DiagnosticView>::empty();
    lemma_attrs_loop_advances(s, 0, Seq::empty(), none);
    let a = attrs_loop(s, 0, Seq::empty(), none);
    let start = NodesState {
        idx: a.idx,
        nodes: Seq::empty(),
        text_buf: Seq::empty(),
        diags: a.diags,
    };
    lemma_nodes_loop_alike(s, o1, o2, None, start, start);
}

} // verus!
