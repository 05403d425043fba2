//! Line-level rules: which lines are comments, verbatim fences or block
//! headers, how a text segment becomes a line of text, and unescaping.

use vstd::prelude::*;
use vstd::slice::{slice_subrange, slice_to_vec};

use crate::ast::{Span, Text, TextLine, TextLineView, TextView};
use crate::options::ParseOptions;
use crate::scan::{
    lemma_line_bounds, lemma_next_line, lemma_same_line, lemma_span_end, lemma_span_end_prefix,
    line_at, line_start, offsets_span, skip_ws, skip_ws_back, span_end, span_for_line_offsets, trim,
    utf8_len, ws_end,
};
use crate::text::smol_from_chars;

verus! {

// ---------------------------------------------------------------------------
// Buffered lines
// ---------------------------------------------------------------------------

/// A line of text as it is buffered during the parse: the value is still
/// escaped.
#[derive(Debug, Clone, PartialEq, Eq)]
pub struct LineBuf {
    pub indent: usize,
    pub value: Vec<char>,
    pub span: Span,
    pub is_comment: bool,
}

impl View for LineBuf {
    type V = TextLineView;

    open spec fn view(&self) -> TextLineView {
        TextLineView {
            indent: self.indent as int,
            value: self.value@,
            span: self.span@,
            is_comment: self.is_comment,
        }
    }
}

/// The views of a sequence of buffered lines, element by element.
pub open spec fn bufs_view(s: Seq<LineBuf>) -> Seq<TextLineView> {
    Seq::new(s.len(), |i: int| s[i]@)
}

/// The view of an optional buffered line.
pub open spec fn buf_opt_view(r: Option<LineBuf>) -> Option<TextLineView> {
    match r {
        Some(l) => Some(l@),
        None => None,
    }
}

/// `buf` with `line` appended, if there is one.
pub open spec fn push_opt(buf: Seq<TextLineView>, line: Option<TextLineView>) -> Seq<
    TextLineView,
> {
    match line {
        Some(l) => buf.push(l),
        None => buf,
    }
}

// ---------------------------------------------------------------------------
// Line shapes
// ---------------------------------------------------------------------------

/// A comment line: after optional leading whitespace it starts with `!`, but
/// not with `!!`.
pub open spec fn comment_shape(line: Seq<char>) -> bool {
    let t = ws_end(line, 0);
    &&& t < line.len()
    &&& line[t] == '!'
    &&& !(t + 1 < line.len() && line[t + 1] == '!')
}

/// A verbatim fence: the line, trimmed, is exactly `$`.
pub open spec fn dollar_shape(line: Seq<char>) -> bool {
    trim(line) =~= seq!['$']
}

/// Where a block header starts on a line: at the `@` that follows optional
/// leading whitespace.
pub open spec fn header_at(line: Seq<char>) -> Option<int> {
    let t = ws_end(line, 0);
    if t < line.len() && line[t] == '@' {
        Some(t)
    } else {
        None
    }
}

/// Whether a line is a comment line.
pub fn is_comment_line(line: &[char]) -> (r: bool)
    ensures
        r == comment_shape(line@),
{
    let t = skip_ws(line, 0);
    if t < line.len() && line[t] == '!' {
        !(t + 1 < line.len() && line[t + 1] == '!')
    } else {
        false
    }
}

/// Whether a line is a verbatim fence.
pub fn is_dollar_line(line: &[char]) -> (r: bool)
    ensures
        r == dollar_shape(line@),
{
    let a = skip_ws(line, 0);
    let b = skip_ws_back(line, line.len());
    proof {
        let fence = seq!['$'];
        assert(fence.len() == 1 && fence[0] == '$');
        if a < b {
            assert(trim(line@).len() == b - a);
            assert(trim(line@)[0] == line@[a as int]);
        }
    }
    a < b && b - a == 1 && line[a] == '$'
}

/// Where a block header starts on a line, as the column of its `@`, twice
/// (the column of the `@` and the offset at which the header text starts).
pub fn find_block_header_start(line: &[char]) -> (r: Option<(usize, usize)>)
    ensures
        match r {
            Some((at_col, start)) => header_at(line@) == Some(at_col as int) && start == at_col
                && at_col < line@.len(),
            None => header_at(line@).is_none(),
        },
{
    let t = skip_ws(line, 0);
    if t < line.len() && line[t] == '@' {
        Some((t, t))
    } else {
        None
    }
}

/// Whether a line holds nothing but whitespace.
pub fn is_blank_line(line: &[char]) -> (r: bool)
    ensures
        r == crate::scan::is_blank(line@),
{
    skip_ws(line, 0) == line.len()
}

// ---------------------------------------------------------------------------
// Indentation
// ---------------------------------------------------------------------------

/// The class of characters that count as indentation: space and tab.
pub open spec fn indent_chars() -> spec_fn(char) -> bool {
    |c: char| c == ' ' || c == '\t'
}

/// The weight of one character of indentation.
pub open spec fn char_weight(c: char, o: ParseOptions) -> int {
    if c == ' ' {
        o.space_width as int
    } else if c == '\t' {
        o.tab_width as int
    } else {
        0
    }
}

/// The summed weight of the characters of `s`.
pub open spec fn indent_weight(s: Seq<char>, o: ParseOptions) -> int
    decreases s.len(),
{
    if s.len() == 0 {
        0
    } else {
        indent_weight(s.drop_last(), o) + char_weight(s.last(), o)
    }
}

/// The indentation of a line: its leading spaces and tabs.
pub open spec fn indentation(line: Seq<char>) -> Seq<char> {
    line.take(span_end(line, indent_chars(), 0))
}

/// Whether the weighted indentation of a line fits a `usize`.  A line of
/// nothing but spaces and tabs holds no text, so nothing is asked of it.
pub open spec fn indent_fits(line: Seq<char>, o: ParseOptions) -> bool {
    span_end(line, indent_chars(), 0) < line.len() ==> indent_weight(indentation(line), o)
        <= usize::MAX
}

/// Whether the weighted indentation of every line of a source fits a
/// `usize`.
pub open spec fn indents_fit(s: Seq<char>, o: ParseOptions) -> bool {
    forall|i: int| 0 <= i <= s.len() ==> indent_fits(#[trigger] line_at(s, i), o)
}

/// Whether the indent of a line of text, if there is one, fits a `usize`.
pub open spec fn line_fits(l: Option<TextLineView>) -> bool {
    match l {
        Some(l) => l.indent <= usize::MAX,
        None => true,
    }
}

/// A part of a run weighs no more than the run, and no weight is negative.
pub proof fn lemma_indent_weight_prefix(s: Seq<char>, a: int, b: int, o: ParseOptions)
    requires
        0 <= a <= b <= s.len(),
    ensures
        0 <= indent_weight(s.take(a), o) <= indent_weight(s.take(b), o),
    decreases b - a,
{
    if a < b {
        assert(s.take(b).drop_last() == s.take(b - 1));
        lemma_indent_weight_prefix(s, a, b - 1, o);
    } else {
        lemma_indent_weight_natural(s.take(a), o);
    }
}

/// No weight of indentation is negative.
pub proof fn lemma_indent_weight_natural(s: Seq<char>, o: ParseOptions)
    ensures
        indent_weight(s, o) >= 0,
    decreases s.len(),
{
    if s.len() > 0 {
        lemma_indent_weight_natural(s.drop_last(), o);
    }
}

/// Where the indentation of a line fits, the indent of every line of text
/// that is cut from it fits: of a segment, of a comment, of the whole line.
pub proof fn lemma_segments_fit(
    line: Seq<char>,
    li: int,
    start: int,
    end: int,
    o: ParseOptions,
)
    requires
        0 <= end <= line.len(),
        indent_fits(line, o),
    ensures
        line_fits(text_segment(line, li, start, end, o)),
        line_fits(comment_segment(line, li, o)),
        line_fits(whole_line(line, li, o)),
{
    lemma_span_end(line, indent_chars(), 0);
    let run = span_end(line, indent_chars(), 0);
    if start == 0 && start < end {
        let seg = line.subrange(0, end);
        assert(seg == line.take(end));
        lemma_span_end_prefix(line, indent_chars(), end, 0);
        let part = span_end(seg, indent_chars(), 0);
        assert(seg.take(part) == line.take(part));
        if text_segment(line, li, start, end, o).is_some() {
            assert(part < end);
            assert(part == run);
        }
    } else if start < end {
        assert(line.subrange(start, end).take(0) == Seq::<char>::empty());
    }
    if comment_shape(line) {
        lemma_span_end(line, crate::scan::whitespace(), 0);
        let bang = ws_end(line, 0);
        assert(line[bang] == '!');
        assert(run <= bang) by {
            if run > bang {
                assert(indent_chars()(line[bang]));
            }
        }
    }
    let whole = line.subrange(0, line.len() as int);
    assert(whole == line);
    assert(whole == line.take(line.len() as int));
    if text_segment(line, li, 0, line.len() as int, o).is_some() {
        assert(run < line.len());
    }
}

/// Measures the leading indentation of `seg`: its weight, or nothing where
/// the weight does not fit a `usize`, and the number of characters it takes.
pub fn measure_indent(seg: &[char], options: ParseOptions) -> (r: (Option<usize>, usize))
    ensures
        r.1 == span_end(seg@, indent_chars(), 0),
        r.1 <= seg@.len(),
        match r.0 {
            Some(w) => w == indent_weight(indentation(seg@), options),
            None => indent_weight(indentation(seg@), options) > usize::MAX,
        },
{
    let mut indent: Option<usize> = Some(0);
    let mut skip: usize = 0;
    while skip < seg.len() && (seg[skip] == ' ' || seg[skip] == '\t')
        invariant
            skip <= seg@.len(),
            span_end(seg@, indent_chars(), skip as int) == span_end(seg@, indent_chars(), 0),
            match indent {
                Some(w) => w == indent_weight(seg@.take(skip as int), options),
                None => indent_weight(seg@.take(skip as int), options) > usize::MAX,
            },
        decreases seg@.len() - skip,
    {
        let ch = seg[skip];
        proof {
            assert(seg@.take(skip + 1).drop_last() == seg@.take(skip as int));
            lemma_indent_weight_natural(seg@.take(skip as int), options);
        }
        let weight = if ch == ' ' {
            options.space_width
        } else {
            options.tab_width
        };
        indent = match indent {
            Some(w) => w.checked_add(weight),
            None => None,
        };
        skip += 1;
    }
    (indent, skip)
}

/// Whether the weighted indentation of every line of `input` fits a
/// `usize`, under the given options.
pub fn indentation_fits(input: &str, options: ParseOptions) -> (r: bool)
    ensures
        r == indents_fit(input@, options),
{
    let chars = crate::text::str_to_chars(input);
    let s = chars.as_slice();
    let total: usize = s.len();
    let mut i: usize = 0;
    loop
        invariant
            i <= total == s@.len(),
            s@ == input@,
            i == line_start(s@, i as int),
            forall|j: int| 0 <= j < i ==> indent_fits(#[trigger] line_at(s@, j), options),
        decreases total - i,
    {
        let end = crate::scan::find_char(s, '\n', i);
        let line = slice_subrange(s, i, end);
        proof {
            lemma_line_bounds(s@, i as int);
            assert forall|j: int| i <= j <= end implies line_at(s@, j) == line@ by {
                lemma_same_line(s@, i as int, j);
            }
        }
        let (weight, run) = measure_indent(line, options);
        if run < line.len() && weight.is_none() {
            assert(line_at(s@, i as int) == line@);
            return false;
        }
        if end >= total {
            return true;
        }
        proof {
            lemma_next_line(s@, i as int);
        }
        i = end + 1;
    }
}

// ---------------------------------------------------------------------------
// Text segments
// ---------------------------------------------------------------------------

/// The line of text made from the characters `start..end` of a line.
///
/// Leading spaces and tabs are stripped into the weighted indent only where
/// the segment starts the line, and only there a leading `!!` stands for `!`.
/// A segment with nothing left yields no line.  The span covers the value:
/// it starts behind the indentation and is as long as the value.
pub open spec fn text_segment(
    line: Seq<char>,
    li: int,
    start: int,
    end: int,
    o: ParseOptions,
) -> Option<TextLineView> {
    if start >= end {
        None
    } else {
        let seg = line.subrange(start, end);
        let skip = if start == 0 {
            span_end(seg, indent_chars(), 0)
        } else {
            0
        };
        let raw = seg.skip(skip);
        let value = if start == 0 && raw.len() >= 2 && raw[0] == '!' && raw[1] == '!' {
            raw.drop_first()
        } else {
            raw
        };
        if value.len() == 0 {
            None
        } else {
            Some(
                TextLineView {
                    indent: indent_weight(seg.take(skip), o),
                    value,
                    span: offsets_span(li, line, start + skip, start + skip + value.len()),
                    is_comment: false,
                },
            )
        }
    }
}

/// The comment made from a comment line: the indent is the weight of the
/// leading spaces and tabs, the value is what follows the `!` and the
/// whitespace behind it.  A line that is no comment line yields none, and
/// so does a comment with nothing left as its value.
pub open spec fn comment_segment(line: Seq<char>, li: int, o: ParseOptions) -> Option<
    TextLineView,
> {
    let skip = span_end(line, indent_chars(), 0);
    let value_start = ws_end(line, ws_end(line, 0) + 1);
    if !comment_shape(line) || value_start >= line.len() {
        None
    } else {
        Some(
            TextLineView {
                indent: indent_weight(line.take(skip), o),
                value: line.skip(value_start),
                span: offsets_span(li, line, value_start, line.len() as int),
                is_comment: true,
            },
        )
    }
}

/// The line of text made from a whole line: a comment where the line is a
/// comment line, a text segment otherwise.
pub open spec fn whole_line(line: Seq<char>, li: int, o: ParseOptions) -> Option<TextLineView> {
    if comment_shape(line) {
        comment_segment(line, li, o)
    } else {
        text_segment(line, li, 0, line.len() as int, o)
    }
}

/// Parses the characters `start..end` of a line as a text segment.
pub fn parse_text_segment(
    line: &[char],
    line_index: usize,
    start: usize,
    end: usize,
    options: ParseOptions,
) -> (r: Option<LineBuf>)
    requires
        end <= line@.len(),
        utf8_len(line@) <= usize::MAX,
        line_fits(text_segment(line@, line_index as int, start as int, end as int, options)),
    ensures
        buf_opt_view(r) == text_segment(
            line@,
            line_index as int,
            start as int,
            end as int,
            options,
        ),
{
    if start >= end {
        return None;
    }
    let segment = slice_subrange(line, start, end);
    let mut weight: Option<usize> = Some(0);
    let mut skip: usize = 0;
    if start == 0 {
        let m = measure_indent(segment, options);
        weight = m.0;
        skip = m.1;
    } else {
        assert(segment@.take(0) == Seq::<char>::empty());
    }
    let value_start = start + skip;
    let raw = slice_subrange(segment, skip, segment.len());
    assert(raw@ == segment@.skip(skip as int));
    let value: Vec<char> = if start == 0 && raw.len() >= 2 && raw[0] == '!' && raw[1] == '!' {
        let rest = slice_subrange(raw, 1, raw.len());
        assert(rest@ == raw@.drop_first());
        slice_to_vec(rest)
    } else {
        slice_to_vec(raw)
    };
    if value.len() == 0 {
        return None;
    }
    let indent = match weight {
        Some(w) => w,
        None => {
            return None;
        },
    };
    let span = span_for_line_offsets(line_index, line, value_start, value_start + value.len());
    Some(LineBuf { indent, value, span, is_comment: false })
}

/// Parses a comment line; a line that is no comment line yields none, and so
/// does a comment without a value.
pub fn parse_comment_line(line: &[char], line_index: usize, options: ParseOptions) -> (r: Option<
    LineBuf,
>)
    requires
        utf8_len(line@) <= usize::MAX,
        line_fits(comment_segment(line@, line_index as int, options)),
    ensures
        buf_opt_view(r) == comment_segment(line@, line_index as int, options),
{
    if !is_comment_line(line) {
        return None;
    }
    let total: usize = line.len();
    let bang = skip_ws(line, 0);
    assert(bang < total);
    let value_start = skip_ws(line, bang + 1);
    if value_start >= total {
        return None;
    }
    let indent = match measure_indent(line, options).0 {
        Some(w) => w,
        None => {
            return None;
        },
    };
    let rest = slice_subrange(line, value_start, line.len());
    assert(rest@ == line@.skip(value_start as int));
    let value = slice_to_vec(rest);
    let span = span_for_line_offsets(line_index, line, value_start, line.len());
    Some(LineBuf { indent, value, span, is_comment: true })
}

/// Parses a whole line as text: as a comment where it is a comment line, as
/// a text segment otherwise.
pub fn parse_text_line(line: &[char], line_index: usize, options: ParseOptions) -> (r: Option<
    LineBuf,
>)
    requires
        utf8_len(line@) <= usize::MAX,
        line_fits(whole_line(line@, line_index as int, options)),
    ensures
        buf_opt_view(r) == whole_line(line@, line_index as int, options),
{
    if is_comment_line(line) {
        return parse_comment_line(line, line_index, options);
    }
    parse_text_segment(line, line_index, 0, line.len(), options)
}

// ---------------------------------------------------------------------------
// Unescaping
// ---------------------------------------------------------------------------

/// The characters that escape themselves when doubled.
pub open spec fn escapable(c: char) -> bool {
    c == '@' || c == '#' || c == '{'
}

/// `s` with each pair `@@`, `##`, `{{` collapsed to its first character, in
/// one pass from the left: a pair is consumed as a whole.
pub open spec fn unescape(s: Seq<char>) -> Seq<char>
    decreases s.len(),
{
    if s.len() == 0 {
        s
    } else if s.len() >= 2 && escapable(s[0]) && s[1] == s[0] {
        seq![s[0]] + unescape(s.skip(2))
    } else {
        seq![s[0]] + unescape(s.skip(1))
    }
}

/// A buffered line with its value unescaped.
pub open spec fn unescape_line(l: TextLineView) -> TextLineView {
    TextLineView {
        indent: l.indent,
        value: unescape(l.value),
        span: l.span,
        is_comment: l.is_comment,
    }
}

/// Buffered lines with their values unescaped.
pub open spec fn unescape_lines(buf: Seq<TextLineView>) -> Seq<TextLineView> {
    Seq::new(buf.len(), |i: int| unescape_line(buf[i]))
}

/// Collapses the escape pairs `@@`, `##` and `{{`.
pub fn unescape_text(input: &[char]) -> (out: Vec<char>)
    ensures
        out@ == unescape(input@),
{
    let mut out: Vec<char> = Vec::new();
    let mut i: usize = 0;
    assert(input@.skip(0) == input@);
    assert(out@ + unescape(input@) == unescape(input@));
    while i < input.len()
        invariant
            i <= input@.len(),
            out@ + unescape(input@.skip(i as int)) == unescape(input@),
        decreases input@.len() - i,
    {
        let ch = input[i];
        let ghost rest = input@.skip(i as int);
        assert(rest[0] == ch);
        if i + 1 < input.len() && (ch == '@' || ch == '#' || ch == '{') && input[i + 1] == ch {
            assert(rest[1] == input@[i + 1]);
            assert(rest.skip(2) == input@.skip(i + 2));
            assert(out@.push(ch) + unescape(rest.skip(2)) == out@ + (seq![ch] + unescape(
                rest.skip(2),
            )));
            out.push(ch);
            i += 2;
        } else {
            assert(rest.skip(1) == input@.skip(i + 1));
            assert(out@.push(ch) + unescape(rest.skip(1)) == out@ + (seq![ch] + unescape(
                rest.skip(1),
            )));
            out.push(ch);
            i += 1;
        }
    }
    assert(input@.skip(input@.len() as int) == Seq::<char>::empty());
    assert(out@ + Seq::<char>::empty() == out@);
    out
}

/// Turns buffered lines into a text node, unescaping each value.
pub fn finalize_text(lines: Vec<LineBuf>) -> (text: Text)
    ensures
        text@ == (TextView { lines: unescape_lines(bufs_view(lines@)) }),
{
    let mut out: Vec<TextLine> = Vec::new();
    let mut i: usize = 0;
    while i < lines.len()
        invariant
            i <= lines@.len(),
            out@.len() == i,
            forall|j: int| 0 <= j < i ==> (#[trigger] out@[j])@ == unescape_line(lines@[j]@),
        decreases lines@.len() - i,
    {
        let line = &lines[i];
        let value = unescape_text(line.value.as_slice());
        out.push(
            TextLine {
                indent: line.indent,
                value: smol_from_chars(value.as_slice()),
                span: line.span,
                is_comment: line.is_comment,
            },
        );
        i += 1;
    }
    let text = Text { lines: out };
    assert(text@.lines =~= unescape_lines(bufs_view(lines@)));
    text
}

} // verus!
