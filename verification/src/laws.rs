//! What holds of every parse: the scan only moves forward, diagnostics are
//! only ever appended, they come in source order, and the whole input is
//! read.

use vstd::prelude::*;

use crate::ast::{DiagnosticView, PositionView};
use crate::header::close_delim;
use crate::lines::{comment_shape, dollar_shape, header_at};
use crate::model::{
    attribute_line, attrs_loop, clamp, document_model, header_attempt, last_line_index,
    lemma_header_attempt_advances, nodes_loop, verbatim_loop, AttrLine, HeaderAttempt, NodesState,
};
use crate::options::ParseOptions;
use crate::scan::{
    find, is_blank, lemma_find, lemma_line_bounds, lemma_span_end, line_at, line_end, line_index,
    line_start, next_line, not_char, position_at, whitespace,
};

verus! {

/// The line at which a diagnostic is anchored: the line on which its span
/// ends.
pub open spec fn anchor_line(d: DiagnosticView) -> int {
    d.span.end.line
}

/// A diagnostic that marks a construct of the source, an attribute line or
/// a block header, has a span that is not empty; one raised at the end of
/// the input has an empty span.
pub open spec fn marks_construct(d: DiagnosticView) -> bool {
    d.span.start != d.span.end
}

/// Position `a` is at or before position `b`: on an earlier line, or on the
/// same line at no later column, in each of the three column units.
pub open spec fn at_or_before(a: PositionView, b: PositionView) -> bool {
    a.line < b.line || (a.line == b.line && a.col8 <= b.col8 && a.col16 <= b.col16 && a.col32
        <= b.col32)
}

/// Diagnostics are in source order: each is anchored at or below the line
/// of every one that precedes it, and of two that mark constructs the
/// earlier one marks the construct that begins first.
pub open spec fn in_source_order(ds: Seq<DiagnosticView>) -> bool {
    forall|i: int, j: int|
        0 <= i < j < ds.len() ==> {
            &&& anchor_line(#[trigger] ds[i]) <= anchor_line(#[trigger] ds[j])
            &&& marks_construct(ds[i]) && marks_construct(ds[j]) ==> at_or_before(
                ds[i].span.start,
                ds[j].span.start,
            )
        }
}

/// The line up to which the source is read when the scan stands at `idx`:
/// the line on which it stands, or at the end of the input the line that
/// was read last.
pub open spec fn reached_line(s: Seq<char>, idx: int) -> int {
    if idx < s.len() {
        line_index(s, idx)
    } else {
        last_line_index(s, idx)
    }
}

/// No diagnostic is anchored below the given line.
pub open spec fn anchored_up_to(ds: Seq<DiagnosticView>, line: int) -> bool {
    forall|i: int| 0 <= i < ds.len() ==> anchor_line(#[trigger] ds[i]) <= line
}

/// No diagnostic marks a construct that begins behind the given position.
pub open spec fn begun_up_to(ds: Seq<DiagnosticView>, p: PositionView) -> bool {
    forall|i: int|
        0 <= i < ds.len() && marks_construct(#[trigger] ds[i]) ==> at_or_before(ds[i].span.start, p)
}

/// The scan stands inside the source, and the diagnostics raised so far are
/// in source order, anchored no lower than the scan has read, and mark no
/// construct that begins behind the scan.
pub open spec fn scan_ok(s: Seq<char>, idx: int, ds: Seq<DiagnosticView>) -> bool {
    &&& 0 <= idx <= s.len()
    &&& in_source_order(ds)
    &&& anchored_up_to(ds, reached_line(s, idx))
    &&& begun_up_to(ds, position_at(s, idx))
}

/// There are no fewer newlines before a later index.
pub proof fn lemma_line_index_monotone(s: Seq<char>, a: int, b: int)
    requires
        0 <= a <= b,
    ensures
        line_index(s, a) <= line_index(s, b),
    decreases b - a,
{
    if a < b {
        lemma_line_index_monotone(s, a, b - 1);
    }
}

/// The scan never reads up to an earlier line by moving forward.
pub proof fn lemma_reached_line_monotone(s: Seq<char>, a: int, b: int)
    requires
        0 <= a <= b <= s.len(),
    ensures
        reached_line(s, a) <= reached_line(s, b),
{
    if b < s.len() {
        lemma_line_index_monotone(s, a, b);
    } else if a < s.len() {
        lemma_line_index_monotone(s, a, s.len() - 1);
        lemma_line_bounds(s, s.len() as int);
    }
}

/// Behind a character that is no newline the scan has read up to the line
/// on which it stands.
pub proof fn lemma_reached_line_inside(s: Seq<char>, i: int)
    requires
        0 < i <= s.len(),
        s[i - 1] != '\n',
    ensures
        reached_line(s, i) == line_index(s, i),
{
    lemma_line_bounds(s, i);
    crate::scan::lemma_span_begin(s, not_char('\n'), i - 1);
}

/// A later index has a position at or behind that of an earlier one.
pub proof fn lemma_position_monotone(s: Seq<char>, i: int, j: int)
    requires
        0 <= i <= j <= s.len(),
    ensures
        at_or_before(position_at(s, i), position_at(s, j)),
{
    lemma_line_bounds(s, j);
    let ls = line_start(s, j);
    if ls <= i {
        lemma_columns_grow_within_line(s, i, j);
    } else {
        lemma_line_index_monotone(s, i, ls - 1);
        lemma_line_index_monotone(s, ls, j);
    }
}

/// Two different indices have different positions.
pub proof fn lemma_position_differs(s: Seq<char>, i: int, j: int)
    requires
        0 <= i < j <= s.len(),
    ensures
        position_at(s, i) != position_at(s, j),
{
    lemma_line_bounds(s, j);
    let ls = line_start(s, j);
    if ls <= i {
        crate::scan::lemma_same_line(s, j, i);
    } else {
        lemma_line_index_monotone(s, i, ls - 1);
        lemma_line_index_monotone(s, ls, j);
    }
}

/// The diagnostics of attribute lines and of block headers have spans that
/// are not empty: they mark the construct that raised them.
pub proof fn lemma_constructs_are_marked(s: Seq<char>, idx: int)
    requires
        0 <= idx <= s.len(),
    ensures
        match attribute_line(line_at(s, idx), line_index(s, idx)) {
            AttrLine::Bad(d) => marks_construct(d),
            _ => true,
        },
        match header_attempt(s, idx) {
            HeaderAttempt::NotHeader => true,
            HeaderAttempt::Failed { diag, .. } => marks_construct(diag),
            HeaderAttempt::Opened { diags, .. } => forall|i: int|
                0 <= i < diags.len() ==> marks_construct(#[trigger] diags[i]),
        },
{
    let line = line_at(s, idx);
    lemma_line_bounds(s, idx);
    lemma_span_end(line, whitespace(), 0);
    match header_at(line) {
        None => {},
        Some(at) => {
            let start = idx + at;
            if 0 <= start <= s.len() {
                lemma_span_end(s, not_char('{'), start);
                let brace = crate::scan::index_of(s, '{', start);
                if brace < s.len() {
                    lemma_position_differs(s, start, brace + 1);
                }
            }
        },
    }
}

/// Moving the scan forward keeps `scan_ok`.
pub proof fn lemma_scan_moves(s: Seq<char>, idx: int, to: int, ds: Seq<DiagnosticView>)
    requires
        scan_ok(s, idx, ds),
        idx <= to <= s.len(),
    ensures
        scan_ok(s, to, ds),
{
    lemma_reached_line_monotone(s, idx, to);
    lemma_position_monotone(s, idx, to);
}

/// Raising a diagnostic keeps `scan_ok` where it is anchored between the
/// line up to which the scan has read and the line up to which it reads
/// next, and where the construct that it marks, if any, begins between
/// the two positions of the scan.
pub proof fn lemma_scan_raises(
    s: Seq<char>,
    idx: int,
    to: int,
    ds: Seq<DiagnosticView>,
    d: DiagnosticView,
)
    requires
        scan_ok(s, idx, ds),
        idx <= to <= s.len(),
        reached_line(s, idx) <= anchor_line(d) <= reached_line(s, to),
        marks_construct(d) ==> at_or_before(position_at(s, idx), d.span.start) && at_or_before(
            d.span.start,
            position_at(s, to),
        ),
    ensures
        scan_ok(s, to, ds.push(d)),
        ds.is_prefix_of(ds.push(d)),
{
    lemma_reached_line_monotone(s, idx, to);
    lemma_position_monotone(s, idx, to);
    let r = ds.push(d);
    assert forall|i: int, j: int| 0 <= i < j < r.len() implies {
        &&& anchor_line(#[trigger] r[i]) <= anchor_line(#[trigger] r[j])
        &&& marks_construct(r[i]) && marks_construct(r[j]) ==> at_or_before(
            r[i].span.start,
            r[j].span.start,
        )
    } by {
        if j < ds.len() {
            assert(r[i] == ds[i] && r[j] == ds[j]);
        } else {
            assert(r[i] == ds[i]);
        }
    }
    assert forall|i: int| 0 <= i < r.len() implies anchor_line(#[trigger] r[i]) <= reached_line(
        s,
        to,
    ) by {
        if i < ds.len() {
            assert(r[i] == ds[i]);
        }
    }
    assert forall|i: int| 0 <= i < r.len() && marks_construct(#[trigger] r[i]) implies at_or_before(
        r[i].span.start,
        position_at(s, to),
    ) by {
        if i < ds.len() {
            assert(r[i] == ds[i]);
        }
    }
}

/// Being a prefix is transitive.
pub proof fn lemma_prefix_trans(
    a: Seq<DiagnosticView>,
    b: Seq<DiagnosticView>,
    c: Seq<DiagnosticView>,
)
    requires
        a.is_prefix_of(b),
        b.is_prefix_of(c),
    ensures
        a.is_prefix_of(c),
{
    assert(a =~= c.subrange(0, a.len() as int)) by {
        assert(a == b.subrange(0, a.len() as int));
        assert(b == c.subrange(0, b.len() as int));
    }
}

/// Reading attribute lines moves the scan forward only, appends to the
/// diagnostics only, and keeps them in source order.
pub proof fn lemma_attrs_loop(
    s: Seq<char>,
    idx: int,
    attrs: Seq<crate::ast::AttributeView>,
    ds: Seq<DiagnosticView>,
)
    requires
        scan_ok(s, idx, ds),
    ensures
        ({
            let r = attrs_loop(s, idx, attrs, ds);
            &&& idx <= r.idx
            &&& scan_ok(s, r.idx, r.diags)
            &&& ds.is_prefix_of(r.diags)
        }),
    decreases s.len() - idx,
{
    let line = line_at(s, idx);
    if idx != line_start(s, idx) || comment_shape(line) || is_blank(line) {
    } else {
        lemma_line_bounds(s, idx);
        match attribute_line(line, line_index(s, idx)) {
            AttrLine::Attr(a) => {
                lemma_scan_moves(s, idx, next_line(s, idx), ds);
                lemma_attrs_loop(s, next_line(s, idx), attrs.push(a), ds);
            },
            AttrLine::Bad(d) => {
                lemma_columns_reset_at_line_start(s, idx);
                lemma_scan_raises(s, idx, idx, ds, d);
            },
            AttrLine::Other => {},
        }
    }
}

/// Reading a verbatim section moves the scan forward only, appends to the
/// diagnostics only, and keeps them in source order.
pub proof fn lemma_verbatim_loop(
    s: Seq<char>,
    o: ParseOptions,
    idx: int,
    lines: Seq<crate::ast::TextLineView>,
    ds: Seq<DiagnosticView>,
)
    requires
        scan_ok(s, idx, ds),
    ensures
        ({
            let r = verbatim_loop(s, o, idx, lines, ds);
            &&& idx <= r.idx
            &&& scan_ok(s, r.idx, r.diags)
            &&& ds.is_prefix_of(r.diags)
        }),
    decreases s.len() - idx,
{
    if idx >= s.len() {
        let d = crate::model::error(
            crate::scan::line_start_span(last_line_index(s, idx)),
            "unterminated $ block"@,
        );
        lemma_scan_raises(s, idx, idx, ds, d);
    } else {
        let line = line_at(s, idx);
        lemma_line_bounds(s, idx);
        lemma_scan_moves(s, idx, next_line(s, idx), ds);
        if dollar_shape(line) {
        } else {
            lemma_verbatim_loop(
                s,
                o,
                next_line(s, idx),
                crate::lines::push_opt(
                    lines,
                    crate::lines::whole_line(line, line_index(s, idx), o),
                ),
                ds,
            );
        }
    }
}

/// The span of a header, from its `@` at `start` through its `{` at `brace`,
/// begins and ends between the position at which the scan stood before it
/// and the position to which the scan moves behind it.
pub proof fn lemma_header_span(s: Seq<char>, idx: int, start: int, brace: int, to: int)
    requires
        0 <= idx <= start <= brace < s.len(),
        s[brace] == '{',
        brace + 1 <= to <= s.len(),
    ensures
        reached_line(s, idx) <= position_at(s, brace + 1).line <= reached_line(s, to),
        at_or_before(position_at(s, idx), position_at(s, start)),
        at_or_before(position_at(s, start), position_at(s, to)),
{
    lemma_line_index_monotone(s, idx, brace + 1);
    lemma_reached_line_inside(s, brace + 1);
    lemma_reached_line_monotone(s, brace + 1, to);
    lemma_position_monotone(s, idx, start);
    lemma_position_monotone(s, start, to);
}

/// A header attempt moves the scan forward, and what it raises keeps the
/// diagnostics in source order.
pub proof fn lemma_header_attempt(s: Seq<char>, idx: int, ds: Seq<DiagnosticView>)
    requires
        scan_ok(s, idx, ds),
        idx < s.len(),
        idx == line_start(s, idx),
    ensures
        match header_attempt(s, idx) {
            HeaderAttempt::NotHeader => true,
            HeaderAttempt::Failed { idx: to, diag } => idx < to && scan_ok(s, to, ds.push(diag))
                && ds.is_prefix_of(ds.push(diag)),
            HeaderAttempt::Opened { idx: to, diags, .. } => idx < to && scan_ok(s, to, ds + diags)
                && ds.is_prefix_of(ds + diags),
        },
{
    lemma_header_attempt_advances(s, idx);
    lemma_line_bounds(s, idx);
    let line = line_at(s, idx);
    match header_at(line) {
        None => {},
        Some(at) => {
            lemma_span_end(line, whitespace(), 0);
            lemma_span_end(s, not_char('{'), idx + at);
            let brace = crate::scan::index_of(s, '{', idx + at);
            match header_attempt(s, idx) {
                HeaderAttempt::NotHeader => {},
                HeaderAttempt::Failed { idx: to, diag } => {
                    lemma_reached_line_monotone(s, idx, to);
                    if brace >= s.len() {
                        lemma_columns_reset_at_line_start(s, idx);
                        lemma_position_monotone(s, idx, to);
                        lemma_scan_raises(s, idx, to, ds, diag);
                    } else {
                        lemma_header_span(s, idx, idx + at, brace, to);
                        lemma_scan_raises(s, idx, to, ds, diag);
                    }
                },
                HeaderAttempt::Opened { idx: to, diags, .. } => {
                    if diags.len() == 0 {
                        assert(ds + diags =~= ds);
                        lemma_scan_moves(s, idx, to, ds);
                    } else {
                        lemma_header_span(s, idx, idx + at, brace, to);
                        assert(ds + diags =~= ds.push(diags[0]));
                        lemma_scan_raises(s, idx, to, ds, diags[0]);
                    }
                },
            }
        },
    }
}

/// Reading a node sequence moves the scan forward only, appends to the
/// diagnostics only, and keeps them in source order, however deep the
/// blocks nest.
pub proof fn lemma_nodes_loop(
    s: Seq<char>,
    o: ParseOptions,
    closing: Option<Seq<char>>,
    st: NodesState,
)
    requires
        scan_ok(s, st.idx, st.diags),
    ensures
        ({
            let r = nodes_loop(s, o, closing, st);
            &&& st.idx <= r.idx
            &&& scan_ok(s, r.idx, r.diags)
            &&& st.diags.is_prefix_of(r.diags)
            &&& closing.is_none() ==> r.idx == s.len()
        }),
    decreases s.len() - st.idx,
{
    if st.idx >= s.len() {
        if closing.is_some() {
            let d = crate::model::error(
                crate::scan::line_start_span(last_line_index(s, st.idx)),
                "missing closing delimiter"@,
            );
            lemma_scan_raises(s, st.idx, st.idx, st.diags, d);
        }
    } else {
        let ls = line_start(s, st.idx);
        let le = line_end(s, st.idx);
        let line = line_at(s, st.idx);
        let li = line_index(s, st.idx);
        let at_start = st.idx == ls;
        let close_at = match closing {
            Some(c) => find(s, c, st.idx, le),
            None => None,
        };
        lemma_line_bounds(s, st.idx);
        let nl = next_line(s, st.idx);
        if close_at.is_some() {
            lemma_find(s, closing.unwrap(), st.idx, le);
            lemma_scan_moves(s, st.idx, close_at.unwrap() + closing.unwrap().len(), st.diags);
        } else if at_start && comment_shape(line) {
            lemma_scan_moves(s, st.idx, nl, st.diags);
            lemma_nodes_loop(
                s,
                o,
                closing,
                NodesState {
                    idx: nl,
                    nodes: st.nodes,
                    text_buf: crate::lines::push_opt(
                        st.text_buf,
                        crate::lines::comment_segment(line, li, o),
                    ),
                    diags: st.diags,
                },
            );
        } else if at_start && is_blank(line) {
            lemma_scan_moves(s, st.idx, nl, st.diags);
            lemma_nodes_loop(
                s,
                o,
                closing,
                NodesState { idx: nl, nodes: st.nodes, text_buf: st.text_buf, diags: st.diags },
            );
        } else if at_start && dollar_shape(line) {
            lemma_scan_moves(s, st.idx, nl, st.diags);
            lemma_verbatim_loop(s, o, nl, Seq::empty(), st.diags);
            let v = verbatim_loop(s, o, nl, Seq::empty(), st.diags);
            let flushed = crate::model::flush(st.nodes, st.text_buf);
            let next = NodesState {
                idx: v.idx,
                nodes: if v.lines.len() > 0 {
                    flushed.push(
                        crate::ast::NodeView::Text(
                            crate::ast::TextView { lines: crate::lines::unescape_lines(v.lines) },
                        ),
                    )
                } else {
                    flushed
                },
                text_buf: Seq::empty(),
                diags: v.diags,
            };
            lemma_nodes_loop(s, o, closing, next);
            lemma_prefix_trans(st.diags, v.diags, nodes_loop(s, o, closing, next).diags);
        } else if at_start && header_at(line).is_some() {
            lemma_header_attempt(s, st.idx, st.diags);
            match header_attempt(s, st.idx) {
                HeaderAttempt::NotHeader => {},
                HeaderAttempt::Failed { idx, diag } => {
                    let next = NodesState {
                        idx,
                        nodes: st.nodes,
                        text_buf: st.text_buf,
                        diags: st.diags.push(diag),
                    };
                    lemma_nodes_loop(s, o, closing, next);
                    lemma_prefix_trans(
                        st.diags,
                        st.diags.push(diag),
                        nodes_loop(s, o, closing, next).diags,
                    );
                },
                HeaderAttempt::Opened { idx, header, diags } => {
                    lemma_attrs_loop(s, idx, Seq::empty(), st.diags + diags);
                    let a = attrs_loop(s, idx, Seq::empty(), st.diags + diags);
                    let inner = NodesState {
                        idx: a.idx,
                        nodes: Seq::empty(),
                        text_buf: Seq::empty(),
                        diags: a.diags,
                    };
                    lemma_nodes_loop(s, o, Some(close_delim(header.plus_count)), inner);
                    let body = nodes_loop(s, o, Some(close_delim(header.plus_count)), inner);
                    let block = crate::ast::BlockView {
                        name: header.name,
                        args: header.args,
                        params: header.params,
                        attrs: a.attrs,
                        nodes: body.nodes,
                        span: header.span,
                    };
                    let next = NodesState {
                        idx: clamp(body.idx, a.idx, s.len() as int),
                        nodes: crate::model::flush(st.nodes, st.text_buf).push(
                            crate::ast::NodeView::Block(block),
                        ),
                        text_buf: Seq::empty(),
                        diags: body.diags,
                    };
                    lemma_nodes_loop(s, o, closing, next);
                    let r = nodes_loop(s, o, closing, next);
                    lemma_prefix_trans(st.diags, st.diags + diags, a.diags);
                    lemma_prefix_trans(st.diags, a.diags, body.diags);
                    lemma_prefix_trans(st.diags, body.diags, r.diags);
                },
            }
        } else {
            lemma_scan_moves(s, st.idx, nl, st.diags);
            lemma_nodes_loop(
                s,
                o,
                closing,
                NodesState {
                    idx: nl,
                    nodes: st.nodes,
                    text_buf: crate::lines::push_opt(
                        st.text_buf,
                        crate::lines::text_segment(line, li, st.idx - ls, le - ls, o),
                    ),
                    diags: st.diags,
                },
            );
        }
    }
}

/// The node sequence of a document reads the input to its end, so nothing
/// is ever left over behind it: the diagnostics of a document are those of
/// its leading attribute lines followed by those of its nodes.
pub proof fn lemma_whole_input_is_read(s: Seq<char>, o: ParseOptions)
    ensures
        ({
            let a = attrs_loop(s, 0, Seq::empty(), Seq::empty());
            let n = nodes_loop(
                s,
                o,
                None,
                NodesState {
                    idx: a.idx,
                    nodes: Seq::empty(),
                    text_buf: Seq::empty(),
                    diags: a.diags,
                },
            );
            &&& n.idx == s.len()
            &&& document_model(s, o).diagnostics == n.diags
            &&& a.diags.is_prefix_of(n.diags)
        }),
{
    let none = Seq::<DiagnosticView>::empty();
    lemma_attrs_loop(s, 0, Seq::empty(), none);
    let a = attrs_loop(s, 0, Seq::empty(), none);
    lemma_nodes_loop(
        s,
        o,
        None,
        NodesState { idx: a.idx, nodes: Seq::empty(), text_buf: Seq::empty(), diags: a.diags },
    );
}

/// The diagnostics of a document come in source order, whatever the input
/// and however deep its blocks nest: each is anchored at or below the line
/// of every one that precedes it, those that mark attribute lines and block
/// headers come in the order in which these begin, and none is anchored
/// beyond the last line of the input.
pub proof fn lemma_diagnostics_in_source_order(s: Seq<char>, o: ParseOptions)
    ensures
        in_source_order(document_model(s, o).diagnostics),
        anchored_up_to(document_model(s, o).diagnostics, last_line_index(s, s.len() as int)),
{
    let none = Seq::<DiagnosticView>::empty();
    lemma_attrs_loop(s, 0, Seq::empty(), none);
    let a = attrs_loop(s, 0, Seq::empty(), none);
    lemma_nodes_loop(
        s,
        o,
        None,
        NodesState { idx: a.idx, nodes: Seq::empty(), text_buf: Seq::empty(), diags: a.diags },
    );
    lemma_whole_input_is_read(s, o);
}

/// At the start of a line all three columns are zero.
pub proof fn lemma_columns_reset_at_line_start(s: Seq<char>, i: int)
    requires
        0 <= i <= s.len(),
        i == line_start(s, i),
    ensures
        position_at(s, i).col8 == 0,
        position_at(s, i).col16 == 0,
        position_at(s, i).col32 == 0,
{
    assert(line_at(s, i).take(0) == Seq::<char>::empty());
}

/// Within a line no column decreases as the scan advances, the line stays
/// the same, and the three columns keep their order: characters, then
/// UTF-16 units, then UTF-8 bytes.
pub proof fn lemma_columns_grow_within_line(s: Seq<char>, i: int, j: int)
    requires
        0 <= i <= j <= s.len(),
        line_start(s, j) <= i,
    ensures
        position_at(s, i).line == position_at(s, j).line,
        position_at(s, i).col8 <= position_at(s, j).col8,
        position_at(s, i).col16 <= position_at(s, j).col16,
        position_at(s, i).col32 <= position_at(s, j).col32,
        position_at(s, j).col32 <= position_at(s, j).col16 <= position_at(s, j).col8,
{
    lemma_line_bounds(s, j);
    crate::scan::lemma_same_line(s, j, i);
    crate::scan::lemma_position_bounds(s, j);
    let ls = line_start(s, j);
    let line = line_at(s, j);
    let a = line.take(i - ls);
    let rest = line.subrange(i - ls, j - ls);
    assert(a + rest == line.take(j - ls));
    crate::scan::lemma_encoded_len_concat(a, rest);
    crate::scan::lemma_encoded_len_order(rest);
}

/// Markdown output never ends in a newline.
pub proof fn lemma_markdown_ends_without_newline(d: crate::ast::DocumentView)
    ensures
        ({
            let m = crate::backend::markdown_of(d);
            m.len() == 0 || m.last() != '\n'
        }),
{
    let all = crate::backend::md_nodes(d.nodes, 0);
    crate::scan::lemma_span_begin(all, crate::backend::newlines(), all.len() as int);
}

/// Unescaping never lengthens a value.
pub proof fn lemma_unescape_is_no_longer(s: Seq<char>)
    ensures
        crate::lines::unescape(s).len() <= s.len(),
    decreases s.len(),
{
    if s.len() == 0 {
    } else if s.len() >= 2 && crate::lines::escapable(s[0]) && s[1] == s[0] {
        lemma_unescape_is_no_longer(s.skip(2));
    } else {
        lemma_unescape_is_no_longer(s.skip(1));
    }
}

/// A value without a doubled `@`, `#` or `{` is its own unescaped form.
pub proof fn lemma_unescape_keeps_plain_text(s: Seq<char>)
    requires
        forall|i: int|
            0 <= i && i + 1 < s.len() ==> !(crate::lines::escapable(#[trigger] s[i]) && s[i + 1]
                == s[i]),
    ensures
        crate::lines::unescape(s) == s,
    decreases s.len(),
{
    if s.len() == 0 {
    } else {
        let rest = s.skip(1);
        assert forall|i: int| 0 <= i && i + 1 < rest.len() implies !(crate::lines::escapable(
            #[trigger] rest[i],
        ) && rest[i + 1] == rest[i]) by {
            assert(rest[i] == s[i + 1]);
            assert(rest[i + 1] == s[i + 2]);
        }
        if s.len() >= 2 {
            assert(!(crate::lines::escapable(s[0]) && s[1] == s[0]));
        }
        lemma_unescape_keeps_plain_text(rest);
        assert(seq![s[0]] + rest == s);
    }
}

/// A doubled `@`, `#` or `{` stands for one, whatever follows it.
pub proof fn lemma_unescape_collapses_a_pair(c: char, rest: Seq<char>)
    requires
        crate::lines::escapable(c),
    ensures
        crate::lines::unescape(seq![c, c] + rest) == seq![c] + crate::lines::unescape(rest),
{
    let s = seq![c, c] + rest;
    assert(s.skip(2) == rest);
}

/// A character that HTML text must not hold as it is.
pub open spec fn html_markup(c: char) -> bool {
    c == '<' || c == '>' || c == '"' || c == '\''
}

/// Escaped text holds no `<`, `>`, `"` or `'`.
pub proof fn lemma_escape_html_has_no_markup(s: Seq<char>)
    ensures
        forall|i: int|
            0 <= i < crate::backend::escape_html(s).len() ==> !html_markup(
                #[trigger] crate::backend::escape_html(s)[i],
            ),
    decreases s.len(),
{
    if s.len() > 0 {
        lemma_escape_html_has_no_markup(s.drop_last());
        reveal_strlit("&amp;");
        reveal_strlit("&lt;");
        reveal_strlit("&gt;");
        reveal_strlit("&quot;");
        reveal_strlit("&#39;");
        let head = crate::backend::escape_html(s.drop_last());
        let tail = crate::backend::html_entity(s.last());
        assert forall|i: int| 0 <= i < tail.len() implies !html_markup(#[trigger] tail[i]) by {}
        assert forall|i: int| 0 <= i < (head + tail).len() implies !html_markup(
            #[trigger] (head + tail)[i],
        ) by {
            if i >= head.len() {
                assert((head + tail)[i] == tail[i - head.len()]);
            }
        }
    }
}

/// A character of an HTML identifier: a lower-case ASCII letter, a digit,
/// `-` or `_`.
pub open spec fn ident_char(c: char) -> bool {
    ('a' <= c && c <= 'z') || ('0' <= c && c <= '9') || c == '-' || c == '_'
}

/// A sanitized identifier holds identifier characters only.
pub proof fn lemma_sanitize_ident_is_plain(s: Seq<char>)
    ensures
        forall|i: int|
            0 <= i < crate::backend::sanitize_ident(s).len() ==> ident_char(
                #[trigger] crate::backend::sanitize_ident(s)[i],
            ),
    decreases s.len(),
{
    if s.len() > 0 {
        lemma_sanitize_ident_is_plain(s.drop_last());
        let head = crate::backend::sanitize_ident(s.drop_last());
        let tail = crate::backend::ident_piece(s.last());
        assert forall|i: int| 0 <= i < tail.len() implies ident_char(#[trigger] tail[i]) by {}
        assert forall|i: int| 0 <= i < (head + tail).len() implies ident_char(
            #[trigger] (head + tail)[i],
        ) by {
            if i >= head.len() {
                assert((head + tail)[i] == tail[i - head.len()]);
            }
        }
    }
}

/// How often the character `c` occurs in `s`.
pub open spec fn count_of(s: Seq<char>, c: char) -> int
    decreases s.len(),
{
    if s.len() == 0 {
        0
    } else {
        count_of(s.drop_last(), c) + if s.last() == c {
            1int
        } else {
            0int
        }
    }
}

/// Indentation weighs its spaces times the weight of a space plus its tabs
/// times the weight of a tab, in whatever order they stand.
pub proof fn lemma_indent_weight_counts(s: Seq<char>, o: ParseOptions)
    ensures
        crate::lines::indent_weight(s, o) == count_of(s, ' ') * o.space_width + count_of(s, '\t')
            * o.tab_width,
    decreases s.len(),
{
    if s.len() > 0 {
        lemma_indent_weight_counts(s.drop_last(), o);
        let spaces = count_of(s.drop_last(), ' ');
        let tabs = count_of(s.drop_last(), '\t');
        assert((spaces + 1) * o.space_width == spaces * o.space_width + o.space_width)
            by (nonlinear_arith);
        assert((tabs + 1) * o.tab_width == tabs * o.tab_width + o.tab_width) by (nonlinear_arith);
    }
}

} // verus!
