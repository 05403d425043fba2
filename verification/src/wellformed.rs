//! The shape of every parsed document: text nodes are never empty, every
//! line has a value, block names are names, arguments are bare tokens, and
//! keys and values are trimmed.

use vstd::prelude::*;

use crate::ast::{AttributeView, BlockView, DocumentView, NodeView, TextLineView, TextView};
use crate::header::close_delim;
use crate::header::{
    arg_chars, ascii_spaces, header_args, header_params, header_parts, name_chars, param_of,
    push_token,
};
use crate::lines::{
    comment_segment, comment_shape, dollar_shape, header_at, push_opt, text_segment, unescape,
    unescape_lines, whole_line,
};
use crate::model::{
    attribute_line, attrs_loop, clamp, document_model, flush, fold_newlines, header_attempt,
    lemma_attrs_loop_advances, lemma_header_attempt_advances, lemma_verbatim_loop_advances,
    nodes_loop, verbatim_loop, AttrLine, HeaderAttempt, NodesState,
};
use crate::options::ParseOptions;
use crate::scan::{
    find, index_of, is_blank, lemma_line_bounds, lemma_span_begin, lemma_span_end, line_at,
    line_end, line_index, line_start, next_line, trim, whitespace, ws_begin, ws_end,
};

verus! {

/// A string without whitespace at either end.
pub open spec fn trimmed(s: Seq<char>) -> bool {
    trim(s) == s
}

/// A block name: not empty, and made of name characters only.
pub open spec fn is_name(n: Seq<char>) -> bool {
    n.len() > 0 && forall|i: int| 0 <= i < n.len() ==> name_chars()(#[trigger] n[i])
}

/// A bare argument: not empty, and made of argument characters only.
pub open spec fn is_arg(a: Seq<char>) -> bool {
    a.len() > 0 && forall|i: int| 0 <= i < a.len() ==> arg_chars()(#[trigger] a[i])
}

/// Every string of `args` is a bare argument.
pub open spec fn args_ok(args: Seq<Seq<char>>) -> bool {
    forall|i: int| 0 <= i < args.len() ==> is_arg(#[trigger] args[i])
}

/// An attribute read from an attribute line: its key is not empty, and key
/// and value are trimmed.
pub open spec fn attr_ok(a: AttributeView) -> bool {
    a.key.len() > 0 && trimmed(a.key) && trimmed(a.value)
}

/// Every attribute of `attrs` is sound.
pub open spec fn attrs_ok(attrs: Seq<AttributeView>) -> bool {
    forall|i: int| 0 <= i < attrs.len() ==> attr_ok(#[trigger] attrs[i])
}

/// A pair read from a parameter list: key and value are trimmed.
pub open spec fn pair_ok(p: (Seq<char>, Seq<char>)) -> bool {
    trimmed(p.0) && trimmed(p.1)
}

/// Every pair of `pairs` is sound.
pub open spec fn pairs_ok(pairs: Seq<(Seq<char>, Seq<char>)>) -> bool {
    forall|i: int| 0 <= i < pairs.len() ==> pair_ok(#[trigger] pairs[i])
}

/// The parameters of a block: key and value are trimmed, and each carries
/// the span of the block's header.
pub open spec fn params_ok(b: BlockView) -> bool {
    forall|i: int|
        0 <= i < b.params.len() ==> pair_ok(((#[trigger] b.params[i]).key, b.params[i].value))
            && b.params[i].span == b.span
}

/// A line of text: its indent is not negative, and it has a value.
pub open spec fn line_ok(l: TextLineView) -> bool {
    l.indent >= 0 && l.value.len() > 0
}

/// Every line of `lines` is sound.
pub open spec fn lines_ok(lines: Seq<TextLineView>) -> bool {
    forall|i: int| 0 <= i < lines.len() ==> line_ok(#[trigger] lines[i])
}

/// A text node: it has a line, and its lines are sound.
pub open spec fn text_ok(t: TextView) -> bool {
    t.lines.len() > 0 && lines_ok(t.lines)
}

/// A node is sound: a text node as `text_ok` says; a block where its name
/// is a name, its arguments are bare tokens, its parameters and attributes
/// are sound, and its children are sound in turn.
pub open spec fn node_ok(n: NodeView) -> bool
    decreases n, 0int,
{
    match n {
        NodeView::Text(t) => text_ok(t),
        NodeView::Block(b) => {
            &&& is_name(b.name)
            &&& args_ok(b.args)
            &&& params_ok(b)
            &&& attrs_ok(b.attrs)
            &&& nodes_ok(b.nodes)
        },
    }
}

/// Every node of `nodes` is sound.
pub open spec fn nodes_ok(nodes: Seq<NodeView>) -> bool
    decreases nodes, 1int,
{
    forall|i: int| 0 <= i < nodes.len() ==> node_ok(#[trigger] nodes[i])
}

/// A document is sound where its attributes and its nodes are.
pub open spec fn document_ok(d: DocumentView) -> bool {
    attrs_ok(d.attrs) && nodes_ok(d.nodes)
}

/// What is trimmed once is trimmed.
pub proof fn lemma_trim_is_trimmed(s: Seq<char>)
    ensures
        trimmed(trim(s)),
{
    let a = ws_end(s, 0);
    let b = ws_begin(s, s.len() as int);
    lemma_span_end(s, whitespace(), 0);
    lemma_span_begin(s, whitespace(), s.len() as int);
    let t = trim(s);
    if a < b {
        assert(t[0] == s[a]);
        assert(t[t.len() - 1] == s[b - 1]);
        assert(ws_end(t, 0) == 0);
        assert(ws_begin(t, t.len() as int) == t.len());
        assert(t.subrange(0, t.len() as int) == t);
    } else {
        assert(ws_end(t, 0) == 0);
    }
}

/// A value that is not empty is not empty when unescaped.
pub proof fn lemma_unescape_keeps_something(s: Seq<char>)
    requires
        s.len() > 0,
    ensures
        unescape(s).len() > 0,
{
}

/// Appending a line that may be missing keeps the lines sound.
pub proof fn lemma_push_opt_ok(buf: Seq<TextLineView>, line: Option<TextLineView>)
    requires
        lines_ok(buf),
        line.is_some() ==> line_ok(line.unwrap()),
    ensures
        lines_ok(push_opt(buf, line)),
{
}

/// A text segment is a sound line.
pub proof fn lemma_text_segment_ok(line: Seq<char>, li: int, start: int, end: int, o: ParseOptions)
    ensures
        text_segment(line, li, start, end, o).is_some() ==> line_ok(
            text_segment(line, li, start, end, o).unwrap(),
        ),
{
    if start < end {
        let seg = line.subrange(start, end);
        let skip = if start == 0 {
            crate::scan::span_end(seg, crate::lines::indent_chars(), 0)
        } else {
            0
        };
        crate::lines::lemma_indent_weight_natural(seg.take(skip), o);
    }
}

/// A whole line, comment or text, is a sound line.
pub proof fn lemma_whole_line_ok(line: Seq<char>, li: int, o: ParseOptions)
    ensures
        whole_line(line, li, o).is_some() ==> line_ok(whole_line(line, li, o).unwrap()),
        comment_segment(line, li, o).is_some() ==> line_ok(comment_segment(line, li, o).unwrap()),
{
    lemma_text_segment_ok(line, li, 0, line.len() as int, o);
    let skip = crate::scan::span_end(line, crate::lines::indent_chars(), 0);
    crate::lines::lemma_indent_weight_natural(line.take(skip), o);
    if comment_shape(line) {
        lemma_span_end(line, whitespace(), 0);
        lemma_span_end(line, whitespace(), ws_end(line, 0) + 1);
    }
}

/// Flushing sound lines into sound nodes gives sound nodes.
pub proof fn lemma_flush_ok(nodes: Seq<NodeView>, buf: Seq<TextLineView>)
    requires
        nodes_ok(nodes),
        lines_ok(buf),
    ensures
        nodes_ok(flush(nodes, buf)),
{
    if buf.len() > 0 {
        lemma_text_node_ok(buf);
        lemma_nodes_push_ok(nodes, NodeView::Text(TextView { lines: unescape_lines(buf) }));
    }
}

/// Sound lines, unescaped, make a sound text node.
pub proof fn lemma_text_node_ok(buf: Seq<TextLineView>)
    requires
        buf.len() > 0,
        lines_ok(buf),
    ensures
        node_ok(NodeView::Text(TextView { lines: unescape_lines(buf) })),
{
    let lines = unescape_lines(buf);
    assert forall|i: int| 0 <= i < lines.len() implies line_ok(#[trigger] lines[i]) by {
        assert(line_ok(buf[i]));
        lemma_unescape_keeps_something(buf[i].value);
    }
}

/// Appending a sound node keeps the nodes sound.
pub proof fn lemma_nodes_push_ok(nodes: Seq<NodeView>, n: NodeView)
    requires
        nodes_ok(nodes),
        node_ok(n),
    ensures
        nodes_ok(nodes.push(n)),
{
    let r = nodes.push(n);
    assert forall|i: int| 0 <= i < r.len() implies node_ok(#[trigger] r[i]) by {
        if i < nodes.len() {
            assert(r[i] == nodes[i]);
        }
    }
}

/// Attribute lines give sound attributes.
pub proof fn lemma_attrs_loop_ok(
    s: Seq<char>,
    idx: int,
    attrs: Seq<AttributeView>,
    diags: Seq<crate::ast::DiagnosticView>,
)
    requires
        0 <= idx <= s.len(),
        attrs_ok(attrs),
    ensures
        attrs_ok(attrs_loop(s, idx, attrs, diags).attrs),
    decreases s.len() - idx,
{
    let line = line_at(s, idx);
    if idx != line_start(s, idx) || comment_shape(line) || is_blank(line) {
    } else {
        match attribute_line(line, line_index(s, idx)) {
            AttrLine::Attr(a) => {
                lemma_line_bounds(s, idx);
                let t = ws_end(line, 0);
                let rest = line.skip(t + 1);
                let colon = index_of(rest, ':', 0);
                lemma_trim_is_trimmed(rest.take(colon));
                lemma_trim_is_trimmed(rest.skip(colon + 1));
                let next = attrs.push(a);
                assert forall|i: int| 0 <= i < next.len() implies attr_ok(#[trigger] next[i]) by {
                    if i < attrs.len() {
                        assert(next[i] == attrs[i]);
                    }
                }
                lemma_attrs_loop_ok(s, next_line(s, idx), next, diags);
            },
            _ => {},
        }
    }
}

/// A verbatim section gives sound lines.
pub proof fn lemma_verbatim_loop_ok(
    s: Seq<char>,
    o: ParseOptions,
    idx: int,
    lines: Seq<TextLineView>,
    diags: Seq<crate::ast::DiagnosticView>,
)
    requires
        0 <= idx <= s.len(),
        lines_ok(lines),
    ensures
        lines_ok(verbatim_loop(s, o, idx, lines, diags).lines),
    decreases s.len() - idx,
{
    if idx < s.len() {
        let line = line_at(s, idx);
        lemma_line_bounds(s, idx);
        if !dollar_shape(line) {
            lemma_whole_line_ok(line, line_index(s, idx), o);
            lemma_push_opt_ok(lines, whole_line(line, line_index(s, idx), o));
            lemma_verbatim_loop_ok(
                s,
                o,
                next_line(s, idx),
                push_opt(lines, whole_line(line, line_index(s, idx), o)),
                diags,
            );
        }
    }
}

/// The arguments of a header are bare tokens.
pub proof fn lemma_header_args_ok(h: Seq<char>, cursor: int, acc: Seq<Seq<char>>)
    requires
        0 <= cursor <= h.len(),
        args_ok(acc),
    ensures
        args_ok(header_args(h, cursor, acc).0),
        cursor <= header_args(h, cursor, acc).1 <= h.len(),
    decreases h.len() - cursor,
{
    if cursor >= h.len() || h[cursor] == '[' || h[cursor] == '+' {
    } else if crate::text::ascii_whitespace(h[cursor]) {
        lemma_span_end(h, ascii_spaces(), cursor + 1);
        lemma_header_args_ok(h, crate::scan::span_end(h, ascii_spaces(), cursor), acc);
    } else {
        let e = crate::scan::span_end(h, arg_chars(), cursor);
        lemma_span_end(h, arg_chars(), cursor);
        lemma_span_end(h, arg_chars(), cursor + 1);
        lemma_span_end(h, ascii_spaces(), e);
        let token = h.subrange(cursor, e);
        assert forall|i: int| 0 <= i < token.len() implies arg_chars()(#[trigger] token[i]) by {
            assert(token[i] == h[cursor + i]);
        }
        let next = acc.push(token);
        assert forall|i: int| 0 <= i < next.len() implies is_arg(#[trigger] next[i]) by {
            if i < acc.len() {
                assert(next[i] == acc[i]);
            }
        }
        lemma_header_args_ok(h, crate::scan::span_end(h, ascii_spaces(), e), next);
    }
}

/// A parameter token gives a sound pair, unless it is blank.
pub proof fn lemma_push_token_ok(acc: Seq<(Seq<char>, Seq<char>)>, token: Seq<char>)
    requires
        pairs_ok(acc),
    ensures
        pairs_ok(push_token(acc, token)),
{
    let t = trim(token);
    if t.len() > 0 {
        let eq = index_of(t, '=', 0);
        lemma_span_end(t, crate::scan::not_char('='), 0);
        lemma_trim_is_trimmed(token);
        lemma_trim_is_trimmed(t.take(eq));
        lemma_trim_is_trimmed(t.skip(eq + 1));
        lemma_trim_is_trimmed(Seq::<char>::empty());
        assert(trim(Seq::<char>::empty()) == Seq::<char>::empty()) by {
            assert(ws_end(Seq::<char>::empty(), 0) == 0);
        }
        let p = param_of(token);
        let next = acc.push(p);
        assert forall|i: int| 0 <= i < next.len() implies pair_ok(#[trigger] next[i]) by {
            if i < acc.len() {
                assert(next[i] == acc[i]);
            }
        }
    }
}

/// The parameters of a header are sound pairs.
pub proof fn lemma_header_params_ok(
    h: Seq<char>,
    tok_start: int,
    cursor: int,
    acc: Seq<(Seq<char>, Seq<char>)>,
)
    requires
        0 <= cursor <= h.len(),
        pairs_ok(acc),
    ensures
        pairs_ok(header_params(h, tok_start, cursor, acc).0),
    decreases h.len() - cursor,
{
    if cursor >= h.len() {
    } else if h[cursor] == ']' {
        lemma_push_token_ok(acc, h.subrange(tok_start, cursor));
    } else if h[cursor] == ',' {
        lemma_push_token_ok(acc, h.subrange(tok_start, cursor));
        lemma_header_params_ok(
            h,
            cursor + 1,
            cursor + 1,
            push_token(acc, h.subrange(tok_start, cursor)),
        );
    } else {
        lemma_header_params_ok(h, tok_start, cursor + 1, acc);
    }
}

/// A header that parses has a name, bare arguments and sound parameters.
pub proof fn lemma_header_parts_ok(h: Seq<char>)
    ensures
        header_parts(h).is_some() ==> {
            let hp = header_parts(h).unwrap();
            &&& is_name(hp.name)
            &&& args_ok(hp.args)
            &&& pairs_ok(hp.params)
            &&& hp.plus_count >= 0
        },
{
    if header_parts(h).is_some() {
        let name_end = crate::scan::span_end(h, name_chars(), 1);
        lemma_span_end(h, name_chars(), 1);
        let name = h.subrange(1, name_end);
        assert forall|i: int| 0 <= i < name.len() implies name_chars()(#[trigger] name[i]) by {
            assert(name[i] == h[1 + i]);
        }
        let c0 = crate::scan::span_end(h, ascii_spaces(), name_end);
        lemma_span_end(h, ascii_spaces(), name_end);
        lemma_header_args_ok(h, c0, Seq::empty());
        let (args, c1) = header_args(h, c0, Seq::empty());
        if 0 <= c1 < h.len() && h[c1] == '[' {
            lemma_header_params_ok(h, c1 + 1, c1 + 1, Seq::empty());
            lemma_header_params_advances(h, c1 + 1, c1 + 1, Seq::empty());
            let (p, n) = header_params(h, c1 + 1, c1 + 1, Seq::empty());
            lemma_span_end(h, ascii_spaces(), n);
            let c2 = crate::scan::span_end(h, ascii_spaces(), n);
            lemma_span_end(h, crate::header::plus_signs(), c2);
        } else {
            lemma_span_end(h, crate::header::plus_signs(), c1);
        }
    }
}

/// Reading a parameter list ends inside the header.
pub proof fn lemma_header_params_advances(
    h: Seq<char>,
    tok_start: int,
    cursor: int,
    acc: Seq<(Seq<char>, Seq<char>)>,
)
    requires
        0 <= cursor <= h.len(),
    ensures
        cursor <= header_params(h, tok_start, cursor, acc).1 <= h.len(),
    decreases h.len() - cursor,
{
    if cursor >= h.len() {
    } else if h[cursor] == ']' {
    } else if h[cursor] == ',' {
        lemma_header_params_advances(
            h,
            cursor + 1,
            cursor + 1,
            push_token(acc, h.subrange(tok_start, cursor)),
        );
    } else {
        lemma_header_params_advances(h, tok_start, cursor + 1, acc);
    }
}

/// A header that opens a block has a name, bare arguments, and sound
/// parameters that carry its span.
pub proof fn lemma_header_attempt_ok(s: Seq<char>, idx: int)
    ensures
        match header_attempt(s, idx) {
            HeaderAttempt::Opened { header, .. } => {
                &&& is_name(header.name)
                &&& args_ok(header.args)
                &&& forall|i: int|
                    0 <= i < header.params.len() ==> pair_ok(
                        ((#[trigger] header.params[i]).key, header.params[i].value),
                    ) && header.params[i].span == header.span
            },
            _ => true,
        },
{
    let line = line_at(s, idx);
    match header_at(line) {
        None => {},
        Some(at) => {
            let brace = index_of(s, '{', idx + at);
            if brace < s.len() {
                let raw = fold_newlines(s.subrange(idx + at, brace));
                lemma_header_parts_ok(raw);
                match header_attempt(s, idx) {
                    HeaderAttempt::Opened { header, .. } => {
                        let hp = header_parts(raw).unwrap();
                        assert forall|i: int| 0 <= i < header.params.len() implies pair_ok(
                            ((#[trigger] header.params[i]).key, header.params[i].value),
                        ) && header.params[i].span == header.span by {
                            assert(pair_ok(hp.params[i]));
                        }
                    },
                    _ => {},
                }
            }
        },
    }
}

/// Reading a node sequence into sound nodes gives sound nodes, however deep
/// the blocks nest.
#[verifier::rlimit(60)]
pub proof fn lemma_nodes_loop_ok(
    s: Seq<char>,
    o: ParseOptions,
    closing: Option<Seq<char>>,
    st: NodesState,
)
    requires
        0 <= st.idx <= s.len(),
        nodes_ok(st.nodes),
        lines_ok(st.text_buf),
    ensures
        nodes_ok(nodes_loop(s, o, closing, st).nodes),
    decreases s.len() - st.idx,
{
    if st.idx >= s.len() {
        lemma_flush_ok(st.nodes, st.text_buf);
    } else {
        let ls = line_start(s, st.idx);
        let le = line_end(s, st.idx);
        let line = line_at(s, st.idx);
        let li = line_index(s, st.idx);
        let at_start = st.idx == ls;
        let close_at = match closing {
            Some(c) => find(s, c, st.idx, le),
            None => None,
        };
        lemma_line_bounds(s, st.idx);
        let nl = next_line(s, st.idx);
        if close_at.is_some() {
            let k = close_at.unwrap();
            lemma_text_segment_ok(line, li, st.idx - ls, k - ls, o);
            lemma_push_opt_ok(st.text_buf, text_segment(line, li, st.idx - ls, k - ls, o));
            lemma_flush_ok(
                st.nodes,
                push_opt(st.text_buf, text_segment(line, li, st.idx - ls, k - ls, o)),
            );
        } else if at_start && comment_shape(line) {
            lemma_whole_line_ok(line, li, o);
            lemma_push_opt_ok(st.text_buf, comment_segment(line, li, o));
            lemma_nodes_loop_ok(
                s,
                o,
                closing,
                NodesState {
                    idx: nl,
                    nodes: st.nodes,
                    text_buf: push_opt(st.text_buf, comment_segment(line, li, o)),
                    diags: st.diags,
                },
            );
        } else if at_start && is_blank(line) {
            lemma_nodes_loop_ok(
                s,
                o,
                closing,
                NodesState { idx: nl, nodes: st.nodes, text_buf: st.text_buf, diags: st.diags },
            );
        } else if at_start && dollar_shape(line) {
            lemma_verbatim_loop_advances(s, o, nl, Seq::empty(), st.diags);
            lemma_verbatim_loop_ok(s, o, nl, Seq::empty(), st.diags);
            let v = verbatim_loop(s, o, nl, Seq::empty(), st.diags);
            let flushed = flush(st.nodes, st.text_buf);
            lemma_flush_ok(st.nodes, st.text_buf);
            let nodes = if v.lines.len() > 0 {
                flushed.push(NodeView::Text(TextView { lines: unescape_lines(v.lines) }))
            } else {
                flushed
            };
            if v.lines.len() > 0 {
                lemma_text_node_ok(v.lines);
                lemma_nodes_push_ok(
                    flushed,
                    NodeView::Text(TextView { lines: unescape_lines(v.lines) }),
                );
            }
            lemma_nodes_loop_ok(
                s,
                o,
                closing,
                NodesState { idx: v.idx, nodes, text_buf: Seq::empty(), diags: v.diags },
            );
        } else if at_start && header_at(line).is_some() {
            lemma_header_attempt_advances(s, st.idx);
            match header_attempt(s, st.idx) {
                HeaderAttempt::NotHeader => {},
                HeaderAttempt::Failed { idx, diag } => {
                    lemma_nodes_loop_ok(
                        s,
                        o,
                        closing,
                        NodesState {
                            idx,
                            nodes: st.nodes,
                            text_buf: st.text_buf,
                            diags: st.diags.push(diag),
                        },
                    );
                },
                HeaderAttempt::Opened { idx, header, diags } => {
                    lemma_header_attempt_ok(s, st.idx);
                    lemma_attrs_loop_advances(s, idx, Seq::empty(), st.diags + diags);
                    lemma_attrs_loop_ok(s, idx, Seq::empty(), st.diags + diags);
                    let a = attrs_loop(s, idx, Seq::empty(), st.diags + diags);
                    let inner = NodesState {
                        idx: a.idx,
                        nodes: Seq::empty(),
                        text_buf: Seq::empty(),
                        diags: a.diags,
                    };
                    lemma_nodes_loop_ok(s, o, Some(close_delim(header.plus_count)), inner);
                    let body = nodes_loop(s, o, Some(close_delim(header.plus_count)), inner);
                    let block = BlockView {
                        name: header.name,
                        args: header.args,
                        params: header.params,
                        attrs: a.attrs,
                        nodes: body.nodes,
                        span: header.span,
                    };
                    assert(node_ok(NodeView::Block(block)));
                    lemma_flush_ok(st.nodes, st.text_buf);
                    lemma_nodes_push_ok(flush(st.nodes, st.text_buf), NodeView::Block(block));
                    lemma_nodes_loop_ok(
                        s,
                        o,
                        closing,
                        NodesState {
                            idx: clamp(body.idx, a.idx, s.len() as int),
                            nodes: flush(st.nodes, st.text_buf).push(NodeView::Block(block)),
                            text_buf: Seq::empty(),
                            diags: body.diags,
                        },
                    );
                },
            }
        } else {
            lemma_text_segment_ok(line, li, st.idx - ls, le - ls, o);
            lemma_push_opt_ok(st.text_buf, text_segment(line, li, st.idx - ls, le - ls, o));
            lemma_nodes_loop_ok(
                s,
                o,
                closing,
                NodesState {
                    idx: nl,
                    nodes: st.nodes,
                    text_buf: push_opt(
                        st.text_buf,
                        text_segment(line, li, st.idx - ls, le - ls, o),
                    ),
                    diags: st.diags,
                },
            );
        }
    }
}

/// Every parsed document is sound, whatever the input.
pub proof fn lemma_document_is_sound(s: Seq<char>, o: ParseOptions)
    ensures
        document_ok(document_model(s, o).document),
{
    let none = Seq::<crate::ast::DiagnosticView>::empty();
    lemma_attrs_loop_ok(s, 0, Seq::empty(), none);
    lemma_attrs_loop_advances(s, 0, Seq::empty(), none);
    let a = attrs_loop(s, 0, Seq::empty(), none);
    lemma_nodes_loop_ok(
        s,
        o,
        None,
        NodesState { idx: a.idx, nodes: Seq::empty(), text_buf: Seq::empty(), diags: a.diags },
    );
}

} // verus!
