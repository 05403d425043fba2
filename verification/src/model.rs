//! The grammar of a document as mathematics: what the parser yields for a
//! source text, stated over character sequences and views.
//!
//! The scan is a single forward pass.  Each function here takes the index at
//! which the scan stands and the diagnostics raised so far, and yields what
//! was read, the index behind it, and the diagnostics raised up to there.

use vstd::prelude::*;

use crate::ast::{
    AttributeView, BlockView, DiagnosticView, DocumentView, NodeView, Severity, SpanView,
    TextLineView, TextView,
};
use crate::header::{close_delim, header_parts};
use crate::lines::{
    comment_segment, comment_shape, header_at, dollar_shape, push_opt, text_segment, unescape_lines,
    whole_line,
};
use crate::options::ParseOptions;
use crate::scan::{
    find, index_of, is_blank, lemma_line_bounds, lemma_span_end, line_at, line_end, line_index,
    line_start, line_start_span, next_line, not_char, position_at, skip_eol, trim, whole_line_span,
    ws_end,
};

verus! {

// ---------------------------------------------------------------------------
// Diagnostics
// ---------------------------------------------------------------------------

/// An error diagnostic.
pub open spec fn error(span: SpanView, message: Seq<char>) -> DiagnosticView {
    DiagnosticView { span, severity: Severity::Error, message }
}

/// A warning diagnostic.
pub open spec fn warning(span: SpanView, message: Seq<char>) -> DiagnosticView {
    DiagnosticView { span, severity: Severity::Warning, message }
}

/// The line that was read last when the scan stands at `idx`: the line on
/// which it stands where it stands inside a line, the line before where it
/// stands at the start of a line.  Diagnostics raised at the end of the
/// input are anchored there.
pub open spec fn last_line_index(s: Seq<char>, idx: int) -> int {
    if idx == line_start(s, idx) && line_index(s, idx) > 0 {
        line_index(s, idx) - 1
    } else {
        line_index(s, idx)
    }
}

// ---------------------------------------------------------------------------
// Attribute lines
// ---------------------------------------------------------------------------

/// What a line is when read as an attribute line.
pub enum AttrLine {
    /// `#key: value` with a key.
    Attr(AttributeView),
    /// A line that starts with a single `#` and is malformed.
    Bad(DiagnosticView),
    /// A line that does not start with a single `#`.
    Other,
}

/// Reads a line as an attribute line.  The key is what stands between the
/// `#` and the first `:`, the value what follows it, both trimmed; the span
/// is that of the whole line.
pub open spec fn attribute_line(line: Seq<char>, li: int) -> AttrLine {
    let t = ws_end(line, 0);
    if !(t < line.len() && line[t] == '#') || (t + 1 < line.len() && line[t + 1] == '#') {
        AttrLine::Other
    } else {
        let rest = line.skip(t + 1);
        let colon = index_of(rest, ':', 0);
        let span = whole_line_span(li, line);
        if colon >= rest.len() {
            AttrLine::Bad(error(span, "attribute missing ':'"@))
        } else if trim(rest.take(colon)).len() == 0 {
            AttrLine::Bad(error(span, "attribute key is empty"@))
        } else {
            AttrLine::Attr(
                AttributeView {
                    key: trim(rest.take(colon)),
                    value: trim(rest.skip(colon + 1)),
                    span,
                },
            )
        }
    }
}

/// The result of reading a run of attribute lines.
pub struct AttrsResult {
    pub attrs: Seq<AttributeView>,
    pub diags: Seq<DiagnosticView>,
    pub idx: int,
}

/// Reads attribute lines for as long as the scan stands at the start of a
/// line that is neither blank nor a comment and reads as an attribute.  A
/// malformed attribute line raises its diagnostic and ends the run
/// unconsumed.
pub open spec fn attrs_loop(
    s: Seq<char>,
    idx: int,
    attrs: Seq<AttributeView>,
    diags: Seq<DiagnosticView>,
) -> AttrsResult
    decreases s.len() - idx,
{
    let line = line_at(s, idx);
    if idx < 0 || idx > s.len() || idx != line_start(s, idx) || comment_shape(line) || is_blank(
        line,
    ) {
        AttrsResult { attrs, diags, idx }
    } else {
        match attribute_line(line, line_index(s, idx)) {
            AttrLine::Attr(a) => {
                proof {
                    lemma_line_bounds(s, idx);
                }
                attrs_loop(s, next_line(s, idx), attrs.push(a), diags)
            },
            AttrLine::Bad(d) => AttrsResult { attrs, diags: diags.push(d), idx },
            AttrLine::Other => AttrsResult { attrs, diags, idx },
        }
    }
}

/// Reading attribute lines never moves the scan back, nor beyond the end.
pub proof fn lemma_attrs_loop_advances(
    s: Seq<char>,
    idx: int,
    attrs: Seq<AttributeView>,
    diags: Seq<DiagnosticView>,
)
    requires
        0 <= idx <= s.len(),
    ensures
        idx <= attrs_loop(s, idx, attrs, diags).idx <= s.len(),
    decreases s.len() - idx,
{
    let line = line_at(s, idx);
    if idx != line_start(s, idx) || comment_shape(line) || is_blank(line) {
    } else {
        match attribute_line(line, line_index(s, idx)) {
            AttrLine::Attr(a) => {
                lemma_line_bounds(s, idx);
                lemma_attrs_loop_advances(s, next_line(s, idx), attrs.push(a), diags);
            },
            _ => {},
        }
    }
}

// ---------------------------------------------------------------------------
// Verbatim sections
// ---------------------------------------------------------------------------

/// The result of reading a verbatim section.
pub struct VerbatimResult {
    /// The lines of the section, still escaped.
    pub lines: Seq<TextLineView>,
    pub diags: Seq<DiagnosticView>,
    pub idx: int,
}

/// Reads lines up to and including the next fence line.  Each line is text
/// or a comment; no header and no further fence is recognised.  Where the
/// input ends first, a diagnostic is raised and the lines read are kept.
pub open spec fn verbatim_loop(
    s: Seq<char>,
    o: ParseOptions,
    idx: int,
    lines: Seq<TextLineView>,
    diags: Seq<DiagnosticView>,
) -> VerbatimResult
    decreases s.len() - idx,
{
    if idx < 0 || idx >= s.len() {
        VerbatimResult {
            lines,
            diags: diags.push(
                error(line_start_span(last_line_index(s, idx)), "unterminated $ block"@),
            ),
            idx,
        }
    } else {
        let line = line_at(s, idx);
        proof {
            lemma_line_bounds(s, idx);
        }
        if dollar_shape(line) {
            VerbatimResult { lines, diags, idx: next_line(s, idx) }
        } else {
            verbatim_loop(
                s,
                o,
                next_line(s, idx),
                push_opt(lines, whole_line(line, line_index(s, idx), o)),
                diags,
            )
        }
    }
}

/// Reading a verbatim section never moves the scan back, nor beyond the
/// end.
pub proof fn lemma_verbatim_loop_advances(
    s: Seq<char>,
    o: ParseOptions,
    idx: int,
    lines: Seq<TextLineView>,
    diags: Seq<DiagnosticView>,
)
    requires
        0 <= idx <= s.len(),
    ensures
        idx <= verbatim_loop(s, o, idx, lines, diags).idx <= s.len(),
    decreases s.len() - idx,
{
    if idx < s.len() {
        let line = line_at(s, idx);
        lemma_line_bounds(s, idx);
        if !dollar_shape(line) {
            lemma_verbatim_loop_advances(
                s,
                o,
                next_line(s, idx),
                push_opt(lines, whole_line(line, line_index(s, idx), o)),
                diags,
            );
        }
    }
}

// ---------------------------------------------------------------------------
// Block headers
// ---------------------------------------------------------------------------

/// The header of a block that was opened.
pub struct BlockHeaderView {
    pub name: Seq<char>,
    pub args: Seq<Seq<char>>,
    pub params: Seq<AttributeView>,
    pub plus_count: int,
    pub span: SpanView,
}

/// What the scan finds where a line may start a block header.
pub enum HeaderAttempt {
    /// The line does not start with `@`.
    NotHeader,
    /// The header is malformed: no block is opened, a diagnostic is raised
    /// and the scan goes on at `idx`.
    Failed { idx: int, diag: DiagnosticView },
    /// A block is opened; its body starts at `idx`.
    Opened { idx: int, header: BlockHeaderView, diags: Seq<DiagnosticView> },
}

/// Header text: newlines inside a header count as single spaces.
pub open spec fn fold_newlines(x: Seq<char>) -> Seq<char> {
    Seq::new(
        x.len(),
        |i: int|
            if x[i] == '\n' {
                ' '
            } else {
                x[i]
            },
    )
}

/// Header parameters as attributes, each with the header's span.
pub open spec fn params_attrs(params: Seq<(Seq<char>, Seq<char>)>, span: SpanView) -> Seq<
    AttributeView,
> {
    Seq::new(
        params.len(),
        |i: int| AttributeView { key: params[i].0, value: params[i].1, span },
    )
}

/// The message of the warning for a header without a space before `{`.
pub open spec fn missing_space_message() -> Seq<char> {
    "LMM 格式规范：标记名称与左大括号之间必须有一个空格。建议改为 '@name {'"@
}

/// Reads the block header of the line at whose start the scan stands.
///
/// The header runs from the `@` through the next `{`, over line ends if need
/// be, and its span covers just that.  Behind the `{` the scan moves over a
/// newline that follows at once.  Without any `{` in the rest of the input
/// the line is given up; without a name the header is given up behind the
/// `{`.
pub open spec fn header_attempt(s: Seq<char>, idx: int) -> HeaderAttempt {
    let line = line_at(s, idx);
    let li = line_index(s, idx);
    match header_at(line) {
        None => HeaderAttempt::NotHeader,
        Some(at) => {
            let start = idx + at;
            let brace = index_of(s, '{', start);
            if brace >= s.len() {
                HeaderAttempt::Failed {
                    idx: next_line(s, idx),
                    diag: error(
                        whole_line_span(li, line),
                        "block header missing opening delimiter"@,
                    ),
                }
            } else {
                let raw = fold_newlines(s.subrange(start, brace));
                let span = SpanView {
                    start: position_at(s, start),
                    end: position_at(s, brace + 1),
                };
                let idx1 = skip_eol(s, brace + 1);
                match header_parts(raw) {
                    None => HeaderAttempt::Failed {
                        idx: idx1,
                        diag: error(span, "missing block name"@),
                    },
                    Some(hp) => HeaderAttempt::Opened {
                        idx: idx1,
                        header: BlockHeaderView {
                            name: hp.name,
                            args: hp.args,
                            params: params_attrs(hp.params, span),
                            plus_count: hp.plus_count,
                            span,
                        },
                        diags: if hp.missing_space {
                            seq![warning(span, missing_space_message())]
                        } else {
                            Seq::empty()
                        },
                    },
                }
            }
        },
    }
}

/// A header attempt at a line start below the end of the input moves the
/// scan forward, and not beyond the end.
pub proof fn lemma_header_attempt_advances(s: Seq<char>, idx: int)
    requires
        0 <= idx < s.len(),
        idx == line_start(s, idx),
    ensures
        match header_attempt(s, idx) {
            HeaderAttempt::NotHeader => true,
            HeaderAttempt::Failed { idx: next, .. } => idx < next <= s.len(),
            HeaderAttempt::Opened { idx: next, .. } => idx < next <= s.len(),
        },
{
    lemma_line_bounds(s, idx);
    let line = line_at(s, idx);
    match header_at(line) {
        None => {},
        Some(at) => {
            lemma_span_end(line, crate::scan::whitespace(), 0);
            lemma_span_end(s, not_char('{'), idx + at);
        },
    }
}

// ---------------------------------------------------------------------------
// Nodes
// ---------------------------------------------------------------------------

/// The nodes with the buffered lines flushed into one text node, their
/// values unescaped; nothing is added for an empty buffer.
pub open spec fn flush(nodes: Seq<NodeView>, buf: Seq<TextLineView>) -> Seq<NodeView> {
    if buf.len() == 0 {
        nodes
    } else {
        nodes.push(NodeView::Text(TextView { lines: unescape_lines(buf) }))
    }
}

/// Where the node loop stands: the scan index, the nodes built, the text
/// lines buffered, and the diagnostics raised so far.
pub struct NodesState {
    pub idx: int,
    pub nodes: Seq<NodeView>,
    pub text_buf: Seq<TextLineView>,
    pub diags: Seq<DiagnosticView>,
}

/// The result of reading a node sequence.
pub struct NodesResult {
    pub nodes: Seq<NodeView>,
    pub diags: Seq<DiagnosticView>,
    pub idx: int,
}

/// `x` held between `lo` and `hi`.
pub open spec fn clamp(x: int, lo: int, hi: int) -> int {
    if x < lo {
        lo
    } else if x > hi {
        hi
    } else {
        x
    }
}

/// Reads nodes until the closing delimiter, or to the end of the input where
/// none is given.
///
/// At each step, in this order:
/// - the delimiter, found anywhere in the rest of the current line, ends
///   the sequence: what stands before it on the line is a last text
///   segment, and the scan moves behind the delimiter;
/// - at a line start: a comment line is buffered; a blank line is skipped;
///   a fence line opens a verbatim section, which becomes a text node of
///   its own; a header line opens a block, whose leading attribute lines
///   and body are read before the loop goes on behind it, or fails with a
///   diagnostic;
/// - anything else is text up to the end of the line.
/// Buffered lines become one text node before a verbatim section, before a
/// block, and at the end.  At the end of the input an expected delimiter
/// that never came raises a diagnostic.
///
/// The loop goes on behind a block at the index where reading its body
/// ended.  That index is held within bounds here so that the definition is
/// well-founded on its face; reading a body never moves the scan back, as
/// `lemma_nodes_loop` shows, so the bounds never take effect.
pub open spec fn nodes_loop(
    s: Seq<char>,
    o: ParseOptions,
    closing: Option<Seq<char>>,
    st: NodesState,
) -> NodesResult
    decreases s.len() - st.idx,
{
    if st.idx < 0 || st.idx >= s.len() {
        NodesResult {
            nodes: flush(st.nodes, st.text_buf),
            diags: if closing.is_some() {
                st.diags.push(
                    error(
                        line_start_span(last_line_index(s, st.idx)),
                        "missing closing delimiter"@,
                    ),
                )
            } else {
                st.diags
            },
            idx: st.idx,
        }
    } else {
        let ls = line_start(s, st.idx);
        let le = line_end(s, st.idx);
        let line = line_at(s, st.idx);
        let li = line_index(s, st.idx);
        let at_start = st.idx == ls;
        let close_at = match closing {
            Some(c) => find(s, c, st.idx, le),
            None => None,
        };
        proof {
            lemma_line_bounds(s, st.idx);
        }
        if close_at.is_some() {
            let k = close_at.unwrap();
            let seg = text_segment(line, li, st.idx - ls, k - ls, o);
            NodesResult {
                nodes: flush(st.nodes, push_opt(st.text_buf, seg)),
                diags: st.diags,
                idx: k + closing.unwrap().len(),
            }
        } else if at_start && comment_shape(line) {
            nodes_loop(
                s,
                o,
                closing,
                NodesState {
                    idx: next_line(s, st.idx),
                    nodes: st.nodes,
                    text_buf: push_opt(st.text_buf, comment_segment(line, li, o)),
                    diags: st.diags,
                },
            )
        } else if at_start && is_blank(line) {
            nodes_loop(
                s,
                o,
                closing,
                NodesState {
                    idx: next_line(s, st.idx),
                    nodes: st.nodes,
                    text_buf: st.text_buf,
                    diags: st.diags,
                },
            )
        } else if at_start && dollar_shape(line) {
            let v = verbatim_loop(s, o, next_line(s, st.idx), Seq::empty(), st.diags);
            let flushed = flush(st.nodes, st.text_buf);
            proof {
                lemma_verbatim_loop_advances(s, o, next_line(s, st.idx), Seq::empty(), st.diags);
            }
            nodes_loop(
                s,
                o,
                closing,
                NodesState {
                    idx: v.idx,
                    nodes: if v.lines.len() > 0 {
                        flushed.push(NodeView::Text(TextView { lines: unescape_lines(v.lines) }))
                    } else {
                        flushed
                    },
                    text_buf: Seq::empty(),
                    diags: v.diags,
                },
            )
        } else if at_start && header_at(line).is_some() {
            proof {
                lemma_header_attempt_advances(s, st.idx);
            }
            match header_attempt(s, st.idx) {
                HeaderAttempt::NotHeader => NodesResult {
                    nodes: st.nodes,
                    diags: st.diags,
                    idx: st.idx,
                },
                HeaderAttempt::Failed { idx, diag } => nodes_loop(
                    s,
                    o,
                    closing,
                    NodesState {
                        idx,
                        nodes: st.nodes,
                        text_buf: st.text_buf,
                        diags: st.diags.push(diag),
                    },
                ),
                HeaderAttempt::Opened { idx, header, diags } => {
                    let a = attrs_loop(s, idx, Seq::empty(), st.diags + diags);
                    proof {
                        lemma_attrs_loop_advances(s, idx, Seq::empty(), st.diags + diags);
                    }
                    let body = nodes_loop(
                        s,
                        o,
                        Some(close_delim(header.plus_count)),
                        NodesState {
                            idx: a.idx,
                            nodes: Seq::empty(),
                            text_buf: Seq::empty(),
                            diags: a.diags,
                        },
                    );
                    let block = BlockView {
                        name: header.name,
                        args: header.args,
                        params: header.params,
                        attrs: a.attrs,
                        nodes: body.nodes,
                        span: header.span,
                    };
                    nodes_loop(
                        s,
                        o,
                        closing,
                        NodesState {
                            idx: clamp(body.idx, a.idx, s.len() as int),
                            nodes: flush(st.nodes, st.text_buf).push(NodeView::Block(block)),
                            text_buf: Seq::empty(),
                            diags: body.diags,
                        },
                    )
                },
            }
        } else {
            let seg = text_segment(line, li, st.idx - ls, le - ls, o);
            nodes_loop(
                s,
                o,
                closing,
                NodesState {
                    idx: next_line(s, st.idx),
                    nodes: st.nodes,
                    text_buf: push_opt(st.text_buf, seg),
                    diags: st.diags,
                },
            )
        }
    }
}

// ---------------------------------------------------------------------------
// Documents
// ---------------------------------------------------------------------------

/// The end of the run of blank and comment lines that starts at `idx`.
pub open spec fn trailing_end(s: Seq<char>, idx: int) -> int
    decreases s.len() - idx,
{
    if idx < 0 || idx >= s.len() {
        idx
    } else {
        let line = line_at(s, idx);
        proof {
            lemma_line_bounds(s, idx);
        }
        if comment_shape(line) || is_blank(line) {
            trailing_end(s, next_line(s, idx))
        } else {
            idx
        }
    }
}

/// The mathematical value of a parse result.
pub struct ParseResultView {
    pub document: DocumentView,
    pub diagnostics: Seq<DiagnosticView>,
}

/// What parsing the source `s` yields: the leading attribute lines, then the
/// node sequence up to the end of the input, then trailing blank and
/// comment lines; content that is left over raises a diagnostic.
pub open spec fn document_model(s: Seq<char>, o: ParseOptions) -> ParseResultView {
    let a = attrs_loop(s, 0, Seq::empty(), Seq::empty());
    let n = nodes_loop(
        s,
        o,
        None,
        NodesState { idx: a.idx, nodes: Seq::empty(), text_buf: Seq::empty(), diags: a.diags },
    );
    let t = trailing_end(s, n.idx);
    ParseResultView {
        document: DocumentView { attrs: a.attrs, nodes: n.nodes },
        diagnostics: if t < s.len() {
            n.diags.push(
                error(line_start_span(line_index(s, t)), "unexpected trailing content"@),
            )
        } else {
            n.diags
        },
    }
}

} // verus!
