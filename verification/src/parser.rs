//! The parsing engine: one forward-only cursor over the whole input, a
//! recursive node loop, and local recovery from malformed input.

use smol_str::SmolStr;
use vstd::prelude::*;
use vstd::slice::slice_subrange;

use crate::ast::{
    attrs_view, diags_view, lemma_nodes_view_push, nodes_view, texts_view, Attribute, AttributeView,
    Block, Diagnostic, DiagnosticView, Document, Node, Position, Severity, Span, Text,
};
use crate::header::{block_close_delim, close_delim, pairs_view, parse_header_parts, HeaderParts};
use crate::laws::{in_source_order, lemma_diagnostics_in_source_order};
use crate::lines::{
    indent_fits, indentation_fits, indents_fit, lemma_segments_fit, line_fits, bufs_view,
    find_block_header_start, finalize_text, is_blank_line, is_comment_line, is_dollar_line,
    parse_comment_line, parse_text_line, parse_text_segment, LineBuf,
};
use crate::model::{
    attribute_line, attrs_loop, document_model, flush, fold_newlines, header_attempt,
    lemma_header_attempt_advances, missing_space_message, nodes_loop, params_attrs, trailing_end,
    verbatim_loop, warning, AttrLine, BlockHeaderView, HeaderAttempt, NodesState, ParseResultView,
};
use crate::options::ParseOptions;
use crate::scan::{
    advance_position, find, find_char, find_sub, index_of, lemma_encoded_len_subrange, lemma_find,
    lemma_line_bounds, lemma_next_line, lemma_position_bounds, lemma_position_step, lemma_same_line,
    lemma_utf8_len_is_encoding_len, line_at, line_end, line_index, line_span_from_line, line_start,
    next_line, position_at, skip_eol, skip_ws, span_at_line_start, trim_range, utf8_len,
};
use crate::text::{smol_from_chars, smol_from_str, smol_text, str_to_chars};
use crate::wellformed::{document_ok, lemma_document_is_sound};

verus! {

/// What a parse yields: the document, and the diagnostics in the order in
/// which they were raised.
#[derive(Debug, Clone, PartialEq, Eq, PartialOrd, Ord, Hash)]
pub struct ParseResult {
    pub document: Document,
    pub diagnostics: Vec<Diagnostic>,
}

impl View for ParseResult {
    type V = ParseResultView;

    open spec fn view(&self) -> ParseResultView {
        ParseResultView {
            document: self.document@,
            diagnostics: diags_view(self.diagnostics@),
        }
    }
}

/// The header of a block that was opened.
#[derive(Debug, Clone, PartialEq, Eq)]
pub struct BlockHeader {
    pub name: SmolStr,
    pub args: Vec<SmolStr>,
    pub params: Vec<Attribute>,
    pub plus_count: usize,
    pub span: Span,
}

impl View for BlockHeader {
    type V = BlockHeaderView;

    open spec fn view(&self) -> BlockHeaderView {
        BlockHeaderView {
            name: smol_text(self.name),
            args: texts_view(self.args@),
            params: attrs_view(self.params@),
            plus_count: self.plus_count as int,
            span: self.span@,
        }
    }
}

/// The scan state of one parse.
struct Parser<'a> {
    input: &'a [char],
    idx: usize,
    line_start_idx: usize,
    pos: Position,
    options: ParseOptions,
    diagnostics: Vec<Diagnostic>,
}

impl<'a> Parser<'a> {
    /// The source text.
    spec fn src(&self) -> Seq<char> {
        self.input@
    }

    /// The diagnostics raised so far.
    spec fn raised(&self) -> Seq<DiagnosticView> {
        diags_view(self.diagnostics@)
    }

    /// The cursor is consistent: the line start and the position are those
    /// of the index, and the source is within the machine's limits.
    spec fn wf(&self) -> bool {
        &&& self.idx <= self.src().len() <= usize::MAX
        &&& self.line_start_idx == line_start(self.src(), self.idx as int)
        &&& self.pos@ == position_at(self.src(), self.idx as int)
        &&& utf8_len(self.src()) <= usize::MAX
        &&& indents_fit(self.src(), self.options)
    }

    /// This state comes after `before` in the same parse: same source, same
    /// options, and the cursor has not moved back.
    spec fn follows(&self, before: &Self) -> bool {
        &&& self.wf()
        &&& self.input@ == before.input@
        &&& self.options == before.options
        &&& before.idx <= self.idx
    }

    fn new(input: &'a [char], options: ParseOptions) -> (p: Self)
        requires
            utf8_len(input@) <= usize::MAX,
            indents_fit(input@, options),
        ensures
            p.wf(),
            p.input@ == input@,
            p.options == options,
            p.idx == 0,
            p.raised() == Seq::<DiagnosticView>::empty(),
    {
        // Asking for the length shows that it fits a `usize`.
        let total: usize = input.len();
        let p = Parser {
            input,
            idx: 0,
            line_start_idx: 0,
            pos: Position::new(0, 0, 0, 0),
            options,
            diagnostics: Vec::new(),
        };
        proof {
            assert(line_at(input@, 0).take(0) == Seq::<char>::empty());
            assert(p.raised() =~= Seq::<DiagnosticView>::empty());
        }
        p
    }

    fn is_line_start(&self) -> (r: bool)
        requires
            self.wf(),
        ensures
            r == (self.idx == line_start(self.src(), self.idx as int)),
    {
        self.idx == self.line_start_idx
    }

    fn at_end(&self) -> (r: bool)
        requires
            self.wf(),
        ensures
            r == (self.idx >= self.src().len()),
    {
        self.idx >= self.input.len()
    }

    fn line_end_idx(&self) -> (r: usize)
        requires
            self.wf(),
        ensures
            r == line_end(self.src(), self.idx as int),
            self.idx <= r <= self.src().len(),
    {
        proof {
            lemma_line_bounds(self.src(), self.idx as int);
            lemma_same_line(self.src(), self.idx as int, self.line_start_idx as int);
        }
        if self.line_start_idx >= self.input.len() {
            return self.input.len();
        }
        find_char(self.input, '\n', self.line_start_idx)
    }

    fn current_line_slice(&self) -> (r: Option<&'a [char]>)
        requires
            self.wf(),
        ensures
            r.is_some(),
            r.unwrap()@ == line_at(self.src(), self.idx as int),
            utf8_len(r.unwrap()@) <= usize::MAX,
            indent_fits(r.unwrap()@, self.options),
            self.pos.line == line_index(self.src(), self.idx as int),
    {
        proof {
            lemma_line_bounds(self.src(), self.idx as int);
            lemma_encoded_len_subrange(
                self.src(),
                line_start(self.src(), self.idx as int),
                line_end(self.src(), self.idx as int),
            );
            assert(indent_fits(line_at(self.src(), self.idx as int), self.options));
        }
        if self.line_start_idx > self.input.len() {
            return None;
        }
        let end = self.line_end_idx();
        Some(slice_subrange(self.input, self.line_start_idx, end))
    }

    fn current_line_offset(&self) -> (r: usize)
        requires
            self.wf(),
        ensures
            r == self.idx - line_start(self.src(), self.idx as int),
    {
        proof {
            lemma_line_bounds(self.src(), self.idx as int);
        }
        self.idx - self.line_start_idx
    }

    fn peek_char(&self) -> (r: Option<char>)
        requires
            self.wf(),
        ensures
            self.idx < self.src().len() ==> r == Some(self.src()[self.idx as int]),
            self.idx >= self.src().len() ==> r.is_none(),
    {
        if self.idx < self.input.len() {
            Some(self.input[self.idx])
        } else {
            None
        }
    }

    /// Moves the cursor over one character.  Every other movement goes
    /// through this one, so the three columns cannot drift apart.
    fn advance_char(&mut self) -> (r: Option<char>)
        requires
            old(self).wf(),
        ensures
            final(self).follows(old(self)),
            final(self).diagnostics == old(self).diagnostics,
            old(self).idx < old(self).src().len() ==> r == Some(
                old(self).src()[old(self).idx as int],
            ) && final(self).idx == old(self).idx + 1,
            old(self).idx >= old(self).src().len() ==> r.is_none() && final(self).idx == old(
                self,
            ).idx,
    {
        let ch = match self.peek_char() {
            Some(ch) => ch,
            None => {
                return None;
            },
        };
        proof {
            lemma_position_step(self.src(), self.idx as int);
            lemma_position_bounds(self.src(), self.idx + 1);
        }
        self.pos = advance_position(self.pos, ch);
        self.idx += 1;
        if ch == '\n' {
            self.line_start_idx = self.idx;
        }
        Some(ch)
    }

    fn advance_to_idx(&mut self, target: usize)
        requires
            old(self).wf(),
            target <= old(self).src().len(),
        ensures
            final(self).follows(old(self)),
            final(self).diagnostics == old(self).diagnostics,
            final(self).idx == if target > old(self).idx {
                target
            } else {
                old(self).idx
            },
    {
        while self.idx < target
            invariant
                self.follows(old(self)),
                self.diagnostics == old(self).diagnostics,
                target <= self.src().len(),
                self.idx <= target || self.idx == old(self).idx,
            decreases target - self.idx,
        {
            self.advance_char();
        }
    }

    fn advance_line(&mut self)
        requires
            old(self).wf(),
        ensures
            final(self).follows(old(self)),
            final(self).diagnostics == old(self).diagnostics,
            final(self).idx == next_line(old(self).src(), old(self).idx as int),
            final(self).idx == line_start(final(self).src(), final(self).idx as int)
                || final(self).idx == final(self).src().len(),
    {
        let line_end = self.line_end_idx();
        if self.idx < line_end {
            self.advance_to_idx(line_end);
        }
        proof {
            if line_end < self.src().len() {
                lemma_next_line(self.src(), old(self).idx as int);
            }
            lemma_line_bounds(self.src(), old(self).idx as int);
        }
        if self.peek_char() == Some('\n') {
            self.advance_char();
        }
    }

    fn advance_line_if_eol(&mut self)
        requires
            old(self).wf(),
        ensures
            final(self).follows(old(self)),
            final(self).diagnostics == old(self).diagnostics,
            final(self).idx == skip_eol(old(self).src(), old(self).idx as int),
    {
        let line_end = self.line_end_idx();
        proof {
            lemma_line_bounds(self.src(), self.idx as int);
        }
        if self.idx >= line_end {
            if self.peek_char() == Some('\n') {
                self.advance_char();
            }
        }
    }

    fn push_diag(&mut self, span: Span, severity: Severity, message: &str)
        requires
            old(self).wf(),
        ensures
            final(self).follows(old(self)),
            final(self).idx == old(self).idx,
            final(self).raised() == old(self).raised().push(
                DiagnosticView { span: span@, severity, message: message@ },
            ),
    {
        let d = Diagnostic { span, severity, message: smol_from_str(message) };
        self.diagnostics.push(d);
        proof {
            assert(final(self).raised() =~= old(self).raised().push(d@));
        }
    }

    /// Reads `line` as an attribute line; a malformed one raises its
    /// diagnostic.
    fn parse_attribute_line(&mut self, line: &[char]) -> (r: Option<Attribute>)
        requires
            old(self).wf(),
            utf8_len(line@) <= usize::MAX,
        ensures
            final(self).follows(old(self)),
            final(self).idx == old(self).idx,
            match attribute_line(line@, old(self).pos.line as int) {
                AttrLine::Attr(a) => r.is_some() && r.unwrap()@ == a && final(self).raised()
                    == old(self).raised(),
                AttrLine::Bad(d) => r.is_none() && final(self).raised() == old(self).raised().push(
                    d,
                ),
                AttrLine::Other => r.is_none() && final(self).raised() == old(self).raised(),
            },
    {
        let total: usize = line.len();
        let t = skip_ws(line, 0);
        if !(t < total && line[t] == '#') || (t + 1 < total && line[t + 1] == '#') {
            return None;
        }
        let rest = slice_subrange(line, t + 1, total);
        assert(rest@ == line@.skip(t + 1));
        let colon = find_char(rest, ':', 0);
        if colon >= rest.len() {
            let span = line_span_from_line(self.pos.line, line);
            self.push_diag(span, Severity::Error, "attribute missing ':'");
            return None;
        }
        let key_part = slice_subrange(rest, 0, colon);
        assert(key_part@ == rest@.take(colon as int));
        let (ka, kb) = trim_range(key_part);
        if ka == kb {
            let span = line_span_from_line(self.pos.line, line);
            self.push_diag(span, Severity::Error, "attribute key is empty");
            return None;
        }
        let value_part = slice_subrange(rest, colon + 1, rest.len());
        assert(value_part@ == rest@.skip(colon + 1));
        let (va, vb) = trim_range(value_part);
        let span = line_span_from_line(self.pos.line, line);
        Some(
            Attribute {
                key: smol_from_chars(slice_subrange(key_part, ka, kb)),
                value: smol_from_chars(slice_subrange(value_part, va, vb)),
                span,
            },
        )
    }

    /// Reads the run of attribute lines at which the cursor stands.
    fn parse_attributes_at_start(&mut self) -> (attrs: Vec<Attribute>)
        requires
            old(self).wf(),
        ensures
            final(self).follows(old(self)),
            ({
                let r = attrs_loop(
                    old(self).src(),
                    old(self).idx as int,
                    Seq::empty(),
                    old(self).raised(),
                );
                &&& attrs_view(attrs@) == r.attrs
                &&& final(self).idx == r.idx
                &&& final(self).raised() == r.diags
            }),
    {
        let mut attrs: Vec<Attribute> = Vec::new();
        let ghost goal = attrs_loop(
            old(self).src(),
            old(self).idx as int,
            Seq::empty(),
            old(self).raised(),
        );
        assert(attrs_view(attrs@) =~= Seq::empty());
        loop
            invariant_except_break
                attrs_loop(self.src(), self.idx as int, attrs_view(attrs@), self.raised()) == goal,
            invariant
                self.follows(old(self)),
            ensures
                attrs_view(attrs@) == goal.attrs,
                self.idx == goal.idx,
                self.raised() == goal.diags,
            decreases self.src().len() - self.idx,
        {
            if !self.is_line_start() {
                break ;
            }
            let line = match self.current_line_slice() {
                Some(line) => line,
                None => {
                    break ;
                },
            };
            if is_comment_line(line) {
                break ;
            }
            if is_blank_line(line) {
                break ;
            }
            let ghost before = attrs_view(attrs@);
            match self.parse_attribute_line(line) {
                Some(attr) => {
                    proof {
                        assert(attrs_view(attrs@.push(attr)) =~= before.push(attr@));
                        lemma_line_bounds(self.src(), self.idx as int);
                    }
                    attrs.push(attr);
                    self.advance_line();
                },
                None => {
                    break ;
                },
            }
        }
        attrs
    }

    /// Collects the header text from `start_idx` up to the next `{`.
    fn scan_header(&self, start_idx: usize, start_pos: Position) -> (r: Option<
        (Vec<char>, Span, usize),
    >)
        requires
            self.wf(),
            start_idx <= self.src().len(),
            start_pos@ == position_at(self.src(), start_idx as int),
        ensures
            match r {
                None => index_of(self.src(), '{', start_idx as int) >= self.src().len(),
                Some((raw, span, end)) => {
                    let brace = index_of(self.src(), '{', start_idx as int);
                    &&& start_idx <= brace < self.src().len()
                    &&& end == brace + 1
                    &&& raw@ == fold_newlines(self.src().subrange(start_idx as int, brace))
                    &&& span@.start == start_pos@
                    &&& span@.end == position_at(self.src(), brace + 1)
                },
            },
    {
        let mut header: Vec<char> = Vec::new();
        let mut idx: usize = start_idx;
        let mut pos = start_pos;
        assert(header@ =~= fold_newlines(self.src().subrange(start_idx as int, idx as int)));
        while idx < self.input.len()
            invariant
                self.wf(),
                start_idx <= idx <= self.src().len(),
                pos@ == position_at(self.src(), idx as int),
                index_of(self.src(), '{', idx as int) == index_of(
                    self.src(),
                    '{',
                    start_idx as int,
                ),
                header@ == fold_newlines(self.src().subrange(start_idx as int, idx as int)),
            decreases self.src().len() - idx,
        {
            let ch = self.input[idx];
            proof {
                lemma_position_step(self.src(), idx as int);
                lemma_position_bounds(self.src(), idx + 1);
            }
            if ch == '{' {
                let end_pos = advance_position(pos, ch);
                return Some((header, Span::new(start_pos, end_pos), idx + 1));
            }
            if ch == '\n' {
                header.push(' ');
            } else {
                header.push(ch);
            }
            assert(header@ =~= fold_newlines(self.src().subrange(start_idx as int, idx + 1)));
            pos = advance_position(pos, ch);
            idx += 1;
        }
        None
    }

    /// Reads the block header of the line at whose start the cursor stands.
    fn try_parse_block_header(&mut self) -> (r: Option<BlockHeader>)
        requires
            old(self).wf(),
            old(self).idx == line_start(old(self).src(), old(self).idx as int),
        ensures
            final(self).follows(old(self)),
            match header_attempt(old(self).src(), old(self).idx as int) {
                HeaderAttempt::NotHeader => r.is_none() && final(self).idx == old(self).idx
                    && final(self).raised() == old(self).raised(),
                HeaderAttempt::Failed { idx, diag } => r.is_none() && final(self).idx == idx
                    && final(self).raised() == old(self).raised().push(diag),
                HeaderAttempt::Opened { idx, header, diags } => r.is_some() && r.unwrap()@
                    == header && final(self).idx == idx && final(self).raised() == old(
                    self,
                ).raised() + diags,
            },
    {
        let line = match self.current_line_slice() {
            Some(line) => line,
            None => {
                return None;
            },
        };
        let (at_col, header_start) = match find_block_header_start(line) {
            Some(found) => found,
            None => {
                return None;
            },
        };
        proof {
            lemma_line_bounds(self.src(), self.idx as int);
            lemma_same_line(self.src(), self.idx as int, self.idx + at_col);
        }
        let start_pos = crate::scan::position_for_line_offset(self.pos.line, line, at_col);
        let start_idx = self.line_start_idx + header_start;
        let (header_raw, header_span, end_idx) = match self.scan_header(start_idx, start_pos) {
            Some(found) => found,
            None => {
                let span = line_span_from_line(self.pos.line, line);
                self.push_diag(span, Severity::Error, "block header missing opening delimiter");
                self.advance_line();
                return None;
            },
        };
        self.advance_to_idx(end_idx);
        self.advance_line_if_eol();
        let parts = match parse_header_parts(header_raw.as_slice()) {
            Some(parts) => parts,
            None => {
                self.push_diag(header_span, Severity::Error, "missing block name");
                return None;
            },
        };
        if parts.missing_space {
            self.push_diag(
                header_span,
                Severity::Warning,
                "LMM 格式规范：标记名称与左大括号之间必须有一个空格。建议改为 '@name {'",
            );
            assert(self.raised() =~= old(self).raised() + seq![
                warning(header_span@, missing_space_message()),
            ]);
        } else {
            assert(self.raised() =~= old(self).raised() + Seq::<DiagnosticView>::empty());
        }
        let HeaderParts { name, args, params: pairs, plus_count, missing_space: _ } = parts;
        let mut params: Vec<Attribute> = Vec::new();
        let mut i: usize = 0;
        while i < pairs.len()
            invariant
                i <= pairs@.len(),
                params@.len() == i,
                forall|j: int|
                    0 <= j < i ==> (#[trigger] params@[j])@ == (AttributeView {
                        key: smol_text(pairs@[j].0),
                        value: smol_text(pairs@[j].1),
                        span: header_span@,
                    }),
            decreases pairs@.len() - i,
        {
            params.push(
                Attribute {
                    key: pairs[i].0.clone(),
                    value: pairs[i].1.clone(),
                    span: header_span,
                },
            );
            i += 1;
        }
        assert(attrs_view(params@) =~= params_attrs(pairs_view(pairs@), header_span@));
        Some(
            BlockHeader {
                name,
                args,
                params,
                plus_count,
                span: Span::new(start_pos, header_span.end),
            },
        )
    }

    /// Reads the lines of a verbatim section, up to and including the fence
    /// that closes it.
    fn collect_until_dollar(&mut self) -> (out: Vec<LineBuf>)
        requires
            old(self).wf(),
        ensures
            final(self).follows(old(self)),
            ({
                let r = verbatim_loop(
                    old(self).src(),
                    old(self).options,
                    old(self).idx as int,
                    Seq::empty(),
                    old(self).raised(),
                );
                &&& bufs_view(out@) == r.lines
                &&& final(self).idx == r.idx
                &&& final(self).raised() == r.diags
            }),
    {
        let mut out: Vec<LineBuf> = Vec::new();
        let ghost goal = verbatim_loop(
            old(self).src(),
            old(self).options,
            old(self).idx as int,
            Seq::empty(),
            old(self).raised(),
        );
        assert(bufs_view(out@) =~= Seq::empty());
        while !self.at_end()
            invariant
                self.follows(old(self)),
                goal == verbatim_loop(
                    old(self).src(),
                    old(self).options,
                    old(self).idx as int,
                    Seq::empty(),
                    old(self).raised(),
                ),
                verbatim_loop(
                    self.src(),
                    self.options,
                    self.idx as int,
                    bufs_view(out@),
                    self.raised(),
                ) == goal,
            decreases self.src().len() - self.idx,
        {
            let line = match self.current_line_slice() {
                Some(line) => line,
                None => {
                    return out;
                },
            };
            proof {
                lemma_line_bounds(self.src(), self.idx as int);
            }
            if is_dollar_line(line) {
                self.advance_line();
                return out;
            }
            let ghost before = bufs_view(out@);
            proof {
                lemma_segments_fit(line@, self.pos.line as int, 0, 0, self.options);
            }
            match parse_text_line(line, self.pos.line, self.options) {
                Some(buf) => {
                    assert(bufs_view(out@.push(buf)) =~= before.push(buf@));
                    out.push(buf);
                },
                None => {},
            }
            self.advance_line();
        }
        let line_index = if self.is_line_start() && self.pos.line > 0 {
            self.pos.line - 1
        } else {
            self.pos.line
        };
        let span = span_at_line_start(line_index);
        self.push_diag(span, Severity::Error, "unterminated $ block");
        out
    }

    /// Moves the cursor over blank and comment lines.
    fn consume_trailing_comments(&mut self)
        requires
            old(self).wf(),
        ensures
            final(self).follows(old(self)),
            final(self).diagnostics == old(self).diagnostics,
            final(self).idx == trailing_end(old(self).src(), old(self).idx as int),
    {
        while !self.at_end()
            invariant
                self.follows(old(self)),
                self.diagnostics == old(self).diagnostics,
                trailing_end(self.src(), self.idx as int) == trailing_end(
                    old(self).src(),
                    old(self).idx as int,
                ),
            decreases self.src().len() - self.idx,
        {
            let line = match self.current_line_slice() {
                Some(line) => line,
                None => {
                    return ;
                },
            };
            proof {
                lemma_line_bounds(self.src(), self.idx as int);
            }
            if is_comment_line(line) || is_blank_line(line) {
                self.advance_line();
            } else {
                return ;
            }
        }
    }

    /// Looks for the closing delimiter in the rest of the current line.
    fn find_close_in_line(&self, close: &[char]) -> (r: Option<usize>)
        requires
            self.wf(),
        ensures
            match r {
                Some(k) => {
                    &&& find(
                        self.src(),
                        close@,
                        self.idx as int,
                        line_end(self.src(), self.idx as int),
                    ) == Some(k as int)
                    &&& self.idx <= k
                    &&& k + close@.len() <= line_end(self.src(), self.idx as int)
                },
                None => find(
                    self.src(),
                    close@,
                    self.idx as int,
                    line_end(self.src(), self.idx as int),
                ).is_none(),
            },
    {
        let line_end = self.line_end_idx();
        if self.idx > line_end {
            return None;
        }
        proof {
            lemma_find(self.src(), close@, self.idx as int, line_end as int);
        }
        find_sub(self.input, close, self.idx, line_end)
    }

    /// Parses a segment of the current line with the options of this parse.
    fn parse_text_segment(&self, line: &[char], line_index: usize, start: usize, end: usize) -> (r:
        Option<LineBuf>)
        requires
            end <= line@.len(),
            utf8_len(line@) <= usize::MAX,
            line_fits(
                crate::lines::text_segment(
                    line@,
                    line_index as int,
                    start as int,
                    end as int,
                    self.options,
                ),
            ),
        ensures
            crate::lines::buf_opt_view(r) == crate::lines::text_segment(
                line@,
                line_index as int,
                start as int,
                end as int,
                self.options,
            ),
    {
        parse_text_segment(line, line_index, start, end, self.options)
    }

    /// Turns the buffered lines into one text node and empties the buffer.
    fn flush_text(&self, nodes: &mut Vec<Node>, text_buf: &mut Vec<LineBuf>)
        ensures
            nodes_view(final(nodes)@) == flush(
                nodes_view(old(nodes)@),
                bufs_view(old(text_buf)@),
            ),
            final(text_buf)@.len() == 0,
    {
        if text_buf.len() == 0 {
            assert(bufs_view(text_buf@).len() == 0);
            return ;
        }
        let mut lines: Vec<LineBuf> = Vec::new();
        core::mem::swap(text_buf, &mut lines);
        let text = finalize_text(lines);
        proof {
            lemma_nodes_view_push(nodes@, Node::Text(text));
        }
        nodes.push(Node::Text(text));
    }

    /// Reads nodes until the closing delimiter, or to the end of the input
    /// where none is given.
    fn parse_nodes_until(&mut self, closing: Option<&[char]>) -> (nodes: Vec<Node>)
        requires
            old(self).wf(),
        ensures
            final(self).follows(old(self)),
            ({
                let r = nodes_loop(
                    old(self).src(),
                    old(self).options,
                    closing_view(closing),
                    NodesState {
                        idx: old(self).idx as int,
                        nodes: Seq::empty(),
                        text_buf: Seq::empty(),
                        diags: old(self).raised(),
                    },
                );
                &&& nodes_view(nodes@) == r.nodes
                &&& final(self).idx == r.idx
                &&& final(self).raised() == r.diags
            }),
        decreases old(self).src().len() - old(self).idx,
    {
        let mut nodes: Vec<Node> = Vec::new();
        let mut text_buf: Vec<LineBuf> = Vec::new();
        let ghost goal = nodes_loop(
            old(self).src(),
            old(self).options,
            closing_view(closing),
            NodesState {
                idx: old(self).idx as int,
                nodes: Seq::empty(),
                text_buf: Seq::empty(),
                diags: old(self).raised(),
            },
        );
        assert(nodes_view(nodes@) =~= Seq::empty());
        assert(bufs_view(text_buf@) =~= Seq::empty());

        while !self.at_end()
            invariant
                self.follows(old(self)),
                goal == nodes_loop(
                    old(self).src(),
                    old(self).options,
                    closing_view(closing),
                    NodesState {
                        idx: old(self).idx as int,
                        nodes: Seq::empty(),
                        text_buf: Seq::empty(),
                        diags: old(self).raised(),
                    },
                ),
                nodes_loop(
                    self.src(),
                    self.options,
                    closing_view(closing),
                    NodesState {
                        idx: self.idx as int,
                        nodes: nodes_view(nodes@),
                        text_buf: bufs_view(text_buf@),
                        diags: self.raised(),
                    },
                ) == goal,
            decreases self.src().len() - self.idx,
        {
            let ghost here = self.idx as int;
            let ghost bufs_before = bufs_view(text_buf@);
            proof {
                lemma_line_bounds(self.src(), here);
            }
            let line = match self.current_line_slice() {
                Some(line) => line,
                None => {
                    return nodes;
                },
            };
            if let Some(close) = closing {
                if let Some(close_idx) = self.find_close_in_line(close) {
                    let start_offset = self.current_line_offset();
                    let end_offset = close_idx - self.line_start_idx;
                    proof {
                        lemma_segments_fit(
                            line@,
                            self.pos.line as int,
                            start_offset as int,
                            end_offset as int,
                            self.options,
                        );
                    }
                    match self.parse_text_segment(line, self.pos.line, start_offset, end_offset) {
                        Some(buf) => {
                            assert(bufs_view(text_buf@.push(buf)) =~= bufs_before.push(buf@));
                            text_buf.push(buf);
                        },
                        None => {},
                    }
                    self.flush_text(&mut nodes, &mut text_buf);
                    self.advance_to_idx(close_idx + close.len());
                    return nodes;
                }
            }
            if self.is_line_start() {
                if is_comment_line(line) {
                    proof {
                        lemma_segments_fit(line@, self.pos.line as int, 0, 0, self.options);
                    }
                    match parse_comment_line(line, self.pos.line, self.options) {
                        Some(buf) => {
                            assert(bufs_view(text_buf@.push(buf)) =~= bufs_before.push(buf@));
                            text_buf.push(buf);
                        },
                        None => {},
                    }
                    self.advance_line();
                    continue ;
                }
                if is_blank_line(line) {
                    self.advance_line();
                    continue ;
                }
                if is_dollar_line(line) {
                    self.flush_text(&mut nodes, &mut text_buf);
                    self.advance_line();
                    let lines = self.collect_until_dollar();
                    if lines.len() > 0 {
                        let text = finalize_text(lines);
                        proof {
                            lemma_nodes_view_push(nodes@, Node::Text(text));
                        }
                        nodes.push(Node::Text(text));
                    }
                    assert(bufs_view(text_buf@) =~= Seq::empty());
                    continue ;
                }
                if find_block_header_start(line).is_some() {
                    proof {
                        lemma_header_attempt_advances(self.src(), here);
                    }
                    match self.try_parse_block_header() {
                        Some(block) => {
                            self.flush_text(&mut nodes, &mut text_buf);
                            let attrs = self.parse_attributes_at_start();
                            let close_delim = block_close_delim(block.plus_count);
                            let children = self.parse_nodes_until(Some(close_delim.as_slice()));
                            let BlockHeader { name, args, params, plus_count: _, span } = block;
                            let node = Node::Block(
                                Block { name, args, params, attrs, nodes: children, span },
                            );
                            proof {
                                lemma_nodes_view_push(nodes@, node);
                            }
                            nodes.push(node);
                            assert(bufs_view(text_buf@) =~= Seq::empty());
                        },
                        None => {},
                    }
                    continue ;
                }
            }
            let line_end = self.line_end_idx();
            let start_offset = self.current_line_offset();
            let end_offset = line_end - self.line_start_idx;
            proof {
                lemma_segments_fit(
                    line@,
                    self.pos.line as int,
                    start_offset as int,
                    end_offset as int,
                    self.options,
                );
            }
            match self.parse_text_segment(line, self.pos.line, start_offset, end_offset) {
                Some(buf) => {
                    assert(bufs_view(text_buf@.push(buf)) =~= bufs_before.push(buf@));
                    text_buf.push(buf);
                },
                None => {},
            }
            self.advance_line();
        }

        self.flush_text(&mut nodes, &mut text_buf);
        if closing.is_some() {
            let line_index = if self.is_line_start() && self.pos.line > 0 {
                self.pos.line - 1
            } else {
                self.pos.line
            };
            let span = span_at_line_start(line_index);
            self.push_diag(span, Severity::Error, "missing closing delimiter");
        }
        nodes
    }

    /// Parses the whole input.
    fn parse_document(&mut self) -> (document: Document)
        requires
            old(self).wf(),
            old(self).idx == 0,
            old(self).raised() == Seq::<DiagnosticView>::empty(),
        ensures
            final(self).follows(old(self)),
            document@ == document_model(old(self).src(), old(self).options).document,
            final(self).raised() == document_model(old(self).src(), old(self).options).diagnostics,
    {
        let attrs = self.parse_attributes_at_start();
        let nodes = self.parse_nodes_until(None);
        self.consume_trailing_comments();
        if !self.at_end() {
            let span = span_at_line_start(self.pos.line);
            self.push_diag(span, Severity::Error, "unexpected trailing content");
        }
        Document { attrs, nodes }
    }
}

/// The view of an optional closing delimiter.
pub open spec fn closing_view(closing: Option<&[char]>) -> Option<Seq<char>> {
    match closing {
        Some(c) => Some(c@),
        None => None,
    }
}

/// Parses `input` with the given options.
///
/// The result is the document and the diagnostics of `document_model`; the
/// diagnostics are in source order and the document is sound; no input is
/// rejected.  The weighted indentation of each line must fit a `usize`.
pub fn parse_document_with_options(input: &str, options: ParseOptions) -> (result: ParseResult)
    requires
        indents_fit(input@, options),
    ensures
        result@ == document_model(input@, options),
        in_source_order(result@.diagnostics),
        document_ok(result@.document),
{
    let chars = str_to_chars(input);
    // The bytes of a string fit a `usize`, and so do all columns.
    let bytes = input.as_bytes();
    let byte_len: usize = bytes.len();
    proof {
        lemma_utf8_len_is_encoding_len(input@);
        lemma_diagnostics_in_source_order(input@, options);
        lemma_document_is_sound(input@, options);
    }
    let mut parser = Parser::new(chars.as_slice(), options);
    let document = parser.parse_document();
    ParseResult { document, diagnostics: parser.diagnostics }
}

/// Parses `input` with the default options: a space weighs 1, a tab 2.
pub fn parse_document(input: &str) -> (result: ParseResult)
    requires
        indents_fit(input@, ParseOptions::standard()),
    ensures
        result@ == document_model(input@, ParseOptions::standard()),
        in_source_order(result@.diagnostics),
        document_ok(result@.document),
{
    parse_document_with_options(input, ParseOptions::default())
}

/// Parses `input` with the given options where the weighted indentation of
/// each of its lines fits a `usize`, and yields nothing where it does not.
pub fn checked_parse_document(input: &str, options: ParseOptions) -> (result: Option<ParseResult>)
    ensures
        indents_fit(input@, options) ==> result.is_some() && result.unwrap()@
            == document_model(input@, options) && in_source_order(
            result.unwrap()@.diagnostics,
        ) && document_ok(result.unwrap()@.document),
        !indents_fit(input@, options) ==> result.is_none(),
{
    if indentation_fits(input, options) {
        Some(parse_document_with_options(input, options))
    } else {
        None
    }
}

} // verus!
