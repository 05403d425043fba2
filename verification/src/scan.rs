//! Scanning primitives over character sequences: runs of a character class,
//! trimming, searching, and the line structure of a source text.

use vstd::prelude::*;

use crate::ast::{Position, PositionView, Span, SpanView};
use crate::text::{is_whitespace, len_utf16, len_utf8, utf16_width, utf8_width, white_space};

verus! {

// ---------------------------------------------------------------------------
// Runs
// ---------------------------------------------------------------------------

/// The end of the longest run of characters satisfying `p` that starts at `i`.
pub open spec fn span_end(s: Seq<char>, p: spec_fn(char) -> bool, i: int) -> int
    decreases s.len() - i,
{
    if 0 <= i < s.len() && p(s[i]) {
        span_end(s, p, i + 1)
    } else {
        i
    }
}

/// The start of the longest run of characters satisfying `p` that ends at `j`.
pub open spec fn span_begin(s: Seq<char>, p: spec_fn(char) -> bool, j: int) -> int
    decreases j,
{
    if 0 < j <= s.len() && p(s[j - 1]) {
        span_begin(s, p, j - 1)
    } else {
        j
    }
}

/// `span_end` lies between `i` and the end, everything before it satisfies
/// `p`, and the character at it, if any, does not.
pub proof fn lemma_span_end(s: Seq<char>, p: spec_fn(char) -> bool, i: int)
    requires
        0 <= i <= s.len(),
    ensures
        i <= span_end(s, p, i) <= s.len(),
        forall|j: int| i <= j < span_end(s, p, i) ==> p(#[trigger] s[j]),
        span_end(s, p, i) < s.len() ==> !p(s[span_end(s, p, i)]),
    decreases s.len() - i,
{
    if i < s.len() && p(s[i]) {
        lemma_span_end(s, p, i + 1);
    }
}

/// `span_begin` lies between the start and `j`, everything from it up to `j`
/// satisfies `p`, and the character before it, if any, does not.
pub proof fn lemma_span_begin(s: Seq<char>, p: spec_fn(char) -> bool, j: int)
    requires
        0 <= j <= s.len(),
    ensures
        0 <= span_begin(s, p, j) <= j,
        forall|k: int| span_begin(s, p, j) <= k < j ==> p(#[trigger] s[k]),
        span_begin(s, p, j) > 0 ==> !p(s[span_begin(s, p, j) - 1]),
    decreases j,
{
    if 0 < j && p(s[j - 1]) {
        lemma_span_begin(s, p, j - 1);
    }
}

/// Any index with the three properties of `lemma_span_end` is `span_end`.
pub proof fn lemma_span_end_unique(s: Seq<char>, p: spec_fn(char) -> bool, i: int, k: int)
    requires
        0 <= i <= k <= s.len(),
        forall|j: int| i <= j < k ==> p(#[trigger] s[j]),
        k < s.len() ==> !p(s[k]),
    ensures
        span_end(s, p, i) == k,
    decreases k - i,
{
    if i < k {
        assert(p(s[i]));
        lemma_span_end_unique(s, p, i + 1, k);
    }
}

/// Any index with the three properties of `lemma_span_begin` is `span_begin`.
pub proof fn lemma_span_begin_unique(s: Seq<char>, p: spec_fn(char) -> bool, j: int, k: int)
    requires
        0 <= k <= j <= s.len(),
        forall|m: int| k <= m < j ==> p(#[trigger] s[m]),
        k > 0 ==> !p(s[k - 1]),
    ensures
        span_begin(s, p, j) == k,
    decreases j - k,
{
    if k < j {
        assert(p(s[j - 1]));
        lemma_span_begin_unique(s, p, j - 1, k);
    }
}

/// A run inside the first `n` characters of `s` is the run in `s`, cut at
/// `n`.
pub proof fn lemma_span_end_prefix(s: Seq<char>, p: spec_fn(char) -> bool, n: int, i: int)
    requires
        0 <= i <= n <= s.len(),
    ensures
        span_end(s.take(n), p, i) == if span_end(s, p, i) < n {
            span_end(s, p, i)
        } else {
            n
        },
    decreases n - i,
{
    if i < n && p(s[i]) {
        lemma_span_end_prefix(s, p, n, i + 1);
    } else if i < n {
    } else {
        lemma_span_end(s, p, i);
    }
}

// ---------------------------------------------------------------------------
// Whitespace
// ---------------------------------------------------------------------------

/// The class of whitespace characters.
pub open spec fn whitespace() -> spec_fn(char) -> bool {
    |c: char| white_space(c)
}

/// The class of every character but `c`.
pub open spec fn not_char(c: char) -> spec_fn(char) -> bool {
    |x: char| x != c
}

/// The end of the whitespace run that starts at `i`.
pub open spec fn ws_end(s: Seq<char>, i: int) -> int {
    span_end(s, whitespace(), i)
}

/// The start of the whitespace run that ends at `j`.
pub open spec fn ws_begin(s: Seq<char>, j: int) -> int {
    span_begin(s, whitespace(), j)
}

/// `s` without its leading and trailing whitespace.
pub open spec fn trim(s: Seq<char>) -> Seq<char> {
    let a = ws_end(s, 0);
    let b = ws_begin(s, s.len() as int);
    if a < b {
        s.subrange(a, b)
    } else {
        Seq::empty()
    }
}

/// Whether `s` holds nothing but whitespace.
pub open spec fn is_blank(s: Seq<char>) -> bool {
    ws_end(s, 0) == s.len()
}

/// The end of the whitespace run that starts at `i`.
pub fn skip_ws(s: &[char], i: usize) -> (r: usize)
    requires
        i <= s@.len(),
    ensures
        r == ws_end(s@, i as int),
        i <= r <= s@.len(),
{
    let mut j: usize = i;
    while j < s.len() && is_whitespace(s[j])
        invariant
            i <= j <= s@.len(),
            ws_end(s@, j as int) == ws_end(s@, i as int),
        decreases s@.len() - j,
    {
        j += 1;
    }
    j
}

/// The start of the whitespace run that ends at `j`.
pub fn skip_ws_back(s: &[char], j: usize) -> (r: usize)
    requires
        j <= s@.len(),
    ensures
        r == ws_begin(s@, j as int),
        r <= j,
{
    let mut k: usize = j;
    while k > 0 && is_whitespace(s[k - 1])
        invariant
            k <= j <= s@.len(),
            ws_begin(s@, k as int) == ws_begin(s@, j as int),
        decreases k,
    {
        k -= 1;
    }
    k
}

/// The bounds of `s` without its leading and trailing whitespace.
pub fn trim_range(s: &[char]) -> (r: (usize, usize))
    ensures
        r.0 <= r.1 <= s@.len(),
        s@.subrange(r.0 as int, r.1 as int) == trim(s@),
{
    let a = skip_ws(s, 0);
    let b = skip_ws_back(s, s.len());
    if a < b {
        (a, b)
    } else {
        (a, a)
    }
}

// ---------------------------------------------------------------------------
// Searching
// ---------------------------------------------------------------------------

/// The first index at or after `i` that holds `c`, or the length of `s`.
pub open spec fn index_of(s: Seq<char>, c: char, i: int) -> int {
    span_end(s, not_char(c), i)
}

/// Whether `needle` occurs in `s` at index `at`.
pub open spec fn occurs_at(s: Seq<char>, needle: Seq<char>, at: int) -> bool {
    s.subrange(at, at + needle.len()) == needle
}

/// The first index `k` with `from <= k` and `k + needle.len() <= to` at which
/// `needle` occurs in `s`.
pub open spec fn find(s: Seq<char>, needle: Seq<char>, from: int, to: int) -> Option<int>
    decreases to - from + 1,
{
    if from + needle.len() > to {
        None
    } else if occurs_at(s, needle, from) {
        Some(from)
    } else {
        find(s, needle, from + 1, to)
    }
}

/// Where `find` succeeds the needle occurs there, inside the window, and
/// nowhere earlier in it; where it fails the needle occurs nowhere in it.
pub proof fn lemma_find(s: Seq<char>, needle: Seq<char>, from: int, to: int)
    requires
        0 <= from,
        to <= s.len(),
    ensures
        match find(s, needle, from, to) {
            Some(k) => {
                &&& from <= k
                &&& k + needle.len() <= to
                &&& occurs_at(s, needle, k)
                &&& forall|j: int| from <= j < k ==> !#[trigger] occurs_at(s, needle, j)
            },
            None => forall|j: int|
                from <= j && j + needle.len() <= to ==> !#[trigger] occurs_at(s, needle, j),
        },
    decreases to - from + 1,
{
    if from + needle.len() > to {
    } else if occurs_at(s, needle, from) {
    } else {
        lemma_find(s, needle, from + 1, to);
    }
}

/// The first index at or after `i` that holds `c`, or the length of `s`.
pub fn find_char(s: &[char], c: char, i: usize) -> (r: usize)
    requires
        i <= s@.len(),
    ensures
        r == index_of(s@, c, i as int),
        i <= r <= s@.len(),
{
    let mut j: usize = i;
    while j < s.len() && s[j] != c
        invariant
            i <= j <= s@.len(),
            index_of(s@, c, j as int) == index_of(s@, c, i as int),
        decreases s@.len() - j,
    {
        j += 1;
    }
    j
}

/// Whether `needle` occurs in `s` at index `at`.
pub fn matches_at(s: &[char], needle: &[char], at: usize) -> (r: bool)
    requires
        at + needle@.len() <= s@.len(),
    ensures
        r == occurs_at(s@, needle@, at as int),
{
    let ghost window = s@.subrange(at as int, at + needle@.len());
    let total: usize = s.len();
    let mut i: usize = 0;
    while i < needle.len()
        invariant
            i <= needle@.len(),
            at + needle@.len() <= s@.len() == total,
            window == s@.subrange(at as int, at + needle@.len()),
            forall|j: int| 0 <= j < i ==> window[j] == needle@[j],
        decreases needle@.len() - i,
    {
        if s[at + i] != needle[i] {
            assert(window[i as int] != needle@[i as int]);
            return false;
        }
        i += 1;
    }
    assert(window =~= needle@);
    true
}

/// The first occurrence of `needle` in `s` that lies inside `from..to`.
pub fn find_sub(s: &[char], needle: &[char], from: usize, to: usize) -> (r: Option<usize>)
    requires
        from <= to <= s@.len(),
    ensures
        match r {
            Some(k) => find(s@, needle@, from as int, to as int) == Some(k as int),
            None => find(s@, needle@, from as int, to as int).is_none(),
        },
{
    let n = needle.len();
    if n == 0 {
        assert(s@.subrange(from as int, from as int) =~= needle@);
        return Some(from);
    }
    let mut k: usize = from;
    while to - k >= n
        invariant
            from <= k <= to <= s@.len(),
            0 < n == needle@.len(),
            find(s@, needle@, k as int, to as int) == find(s@, needle@, from as int, to as int),
        decreases to - k,
    {
        if matches_at(s, needle, k) {
            return Some(k);
        }
        k += 1;
    }
    None
}

// ---------------------------------------------------------------------------
// Encoded lengths
// ---------------------------------------------------------------------------

/// Number of bytes of the UTF-8 encoding of `s`.
pub open spec fn utf8_len(s: Seq<char>) -> int
    decreases s.len(),
{
    if s.len() == 0 {
        0
    } else {
        utf8_len(s.drop_last()) + utf8_width(s.last())
    }
}

/// Number of code units of the UTF-16 encoding of `s`.
pub open spec fn utf16_len(s: Seq<char>) -> int
    decreases s.len(),
{
    if s.len() == 0 {
        0
    } else {
        utf16_len(s.drop_last()) + utf16_width(s.last())
    }
}

/// Encoded lengths add up over concatenation.
pub proof fn lemma_encoded_len_concat(a: Seq<char>, b: Seq<char>)
    ensures
        utf8_len(a + b) == utf8_len(a) + utf8_len(b),
        utf16_len(a + b) == utf16_len(a) + utf16_len(b),
    decreases b.len(),
{
    if b.len() == 0 {
        assert(a + b == a);
    } else {
        assert((a + b).drop_last() == a + b.drop_last());
        lemma_encoded_len_concat(a, b.drop_last());
    }
}

/// A sequence has at most as many characters as UTF-16 units, and at most as
/// many UTF-16 units as UTF-8 bytes.
pub proof fn lemma_encoded_len_order(s: Seq<char>)
    ensures
        s.len() <= utf16_len(s) <= utf8_len(s),
    decreases s.len(),
{
    if s.len() > 0 {
        lemma_encoded_len_order(s.drop_last());
    }
}

/// A part of a sequence encodes to no more than the whole.
pub proof fn lemma_encoded_len_subrange(s: Seq<char>, a: int, b: int)
    requires
        0 <= a <= b <= s.len(),
    ensures
        0 <= utf8_len(s.subrange(a, b)) <= utf8_len(s),
        0 <= utf16_len(s.subrange(a, b)) <= utf16_len(s),
{
    let x = s.subrange(0, a);
    let y = s.subrange(a, b);
    let z = s.subrange(b, s.len() as int);
    assert(s == (x + y) + z);
    lemma_encoded_len_concat(x + y, z);
    lemma_encoded_len_concat(x, y);
    lemma_encoded_len_order(x);
    lemma_encoded_len_order(y);
    lemma_encoded_len_order(z);
}

/// `utf8_len` is the length of the UTF-8 encoding.
pub proof fn lemma_utf8_len_is_encoding_len(s: Seq<char>)
    ensures
        utf8_len(s) == vstd::utf8::encode_utf8(s).len(),
    decreases s.len(),
{
    if s.len() == 0 {
    } else {
        let head = seq![s[0]];
        let tail = s.drop_first();
        assert(s == head + tail);
        lemma_encoded_len_concat(head, tail);
        assert(head.drop_last() == Seq::<char>::empty());
        assert(utf8_len(head) == utf8_width(s[0])) by {
            reveal_with_fuel(utf8_len, 2);
        }
        lemma_utf8_len_is_encoding_len(tail);
        vstd::utf8::char_is_scalar(s[0]);
    }
}

// ---------------------------------------------------------------------------
// Lines and positions
// ---------------------------------------------------------------------------

/// The index of the newline that ends the line holding index `i`, or the
/// length of `s` where that line is the last one.
pub open spec fn line_end(s: Seq<char>, i: int) -> int {
    index_of(s, '\n', i)
}

/// The index at which the line holding index `i` starts.
pub open spec fn line_start(s: Seq<char>, i: int) -> int {
    span_begin(s, not_char('\n'), i)
}

/// The number of newlines before index `i`.
pub open spec fn line_index(s: Seq<char>, i: int) -> int
    decreases i,
{
    if i <= 0 {
        0
    } else {
        line_index(s, i - 1) + if s[i - 1] == '\n' {
            1int
        } else {
            0int
        }
    }
}

/// The line holding index `i`, without its newline.
pub open spec fn line_at(s: Seq<char>, i: int) -> Seq<char> {
    s.subrange(line_start(s, i), line_end(s, i))
}

/// The start of the line after the one holding index `i`, or the length of
/// `s` where there is none.
pub open spec fn next_line(s: Seq<char>, i: int) -> int {
    let le = line_end(s, i);
    if le < s.len() {
        le + 1
    } else {
        le
    }
}

/// Index `i` moved over the newline it stands on, if it stands on one.
pub open spec fn skip_eol(s: Seq<char>, i: int) -> int {
    if 0 <= i < s.len() && s[i] == '\n' {
        i + 1
    } else {
        i
    }
}

/// The position of offset `off` within a line of the given index.
pub open spec fn line_position(li: int, line: Seq<char>, off: int) -> PositionView {
    PositionView {
        line: li,
        col8: utf8_len(line.take(off)),
        col16: utf16_len(line.take(off)),
        col32: off,
    }
}

/// The position of index `i` of the source `s`.
pub open spec fn position_at(s: Seq<char>, i: int) -> PositionView {
    line_position(line_index(s, i), line_at(s, i), i - line_start(s, i))
}

/// The position after the character `c`, which stood at position `p`.
pub open spec fn step_position(p: PositionView, c: char) -> PositionView {
    if c == '\n' {
        PositionView { line: p.line + 1, col8: 0, col16: 0, col32: 0 }
    } else {
        PositionView {
            line: p.line,
            col8: p.col8 + utf8_width(c),
            col16: p.col16 + utf16_width(c),
            col32: p.col32 + 1,
        }
    }
}

/// The empty span at the start of a line.
pub open spec fn line_start_span(li: int) -> SpanView {
    let p = PositionView { line: li, col8: 0, col16: 0, col32: 0 };
    SpanView { start: p, end: p }
}

/// The span of a whole line.
pub open spec fn whole_line_span(li: int, line: Seq<char>) -> SpanView {
    SpanView {
        start: PositionView { line: li, col8: 0, col16: 0, col32: 0 },
        end: line_position(li, line, line.len() as int),
    }
}

/// The span between two offsets of a line.
pub open spec fn offsets_span(li: int, line: Seq<char>, start: int, end: int) -> SpanView {
    SpanView { start: line_position(li, line, start), end: line_position(li, line, end) }
}

/// The shape of the line around an index: it starts after a newline or at the
/// start of the source, ends at a newline or at the end, and holds no newline.
pub proof fn lemma_line_bounds(s: Seq<char>, i: int)
    requires
        0 <= i <= s.len(),
    ensures
        0 <= line_start(s, i) <= i <= line_end(s, i) <= s.len(),
        forall|j: int| line_start(s, i) <= j < line_end(s, i) ==> #[trigger] s[j] != '\n',
        line_start(s, i) > 0 ==> s[line_start(s, i) - 1] == '\n',
        line_end(s, i) < s.len() ==> s[line_end(s, i)] == '\n',
        i <= next_line(s, i) <= s.len(),
        i < s.len() ==> i < next_line(s, i),
        0 <= line_index(s, i) <= i,
{
    lemma_span_end(s, not_char('\n'), i);
    lemma_span_begin(s, not_char('\n'), i);
    lemma_line_index_bound(s, i);
}

/// There are no more newlines before an index than characters.
pub proof fn lemma_line_index_bound(s: Seq<char>, i: int)
    requires
        0 <= i,
    ensures
        0 <= line_index(s, i) <= i,
    decreases i,
{
    if i > 0 {
        lemma_line_index_bound(s, i - 1);
    }
}

/// Every index of a line sees the same line.
pub proof fn lemma_same_line(s: Seq<char>, i: int, j: int)
    requires
        0 <= i <= s.len(),
        line_start(s, i) <= j <= line_end(s, i),
    ensures
        line_start(s, j) == line_start(s, i),
        line_end(s, j) == line_end(s, i),
        line_index(s, j) == line_index(s, i),
        line_at(s, j) == line_at(s, i),
{
    lemma_line_bounds(s, i);
    let p = not_char('\n');
    lemma_span_end_unique(s, p, j, line_end(s, i));
    lemma_span_begin_unique(s, p, j, line_start(s, i));
    if j <= i {
        lemma_line_index_flat(s, j, i);
    } else {
        lemma_line_index_flat(s, i, j);
    }
}

/// The newline count does not change over a stretch without newlines.
pub proof fn lemma_line_index_flat(s: Seq<char>, a: int, b: int)
    requires
        0 <= a <= b <= s.len(),
        forall|j: int| a <= j < b ==> #[trigger] s[j] != '\n',
    ensures
        line_index(s, b) == line_index(s, a),
    decreases b - a,
{
    if a < b {
        assert(s[b - 1] != '\n');
        lemma_line_index_flat(s, a, b - 1);
    }
}

/// The line after a newline starts right behind it and has the next index.
pub proof fn lemma_next_line(s: Seq<char>, i: int)
    requires
        0 <= i <= s.len(),
        line_end(s, i) < s.len(),
    ensures
        next_line(s, i) == line_end(s, i) + 1,
        line_start(s, next_line(s, i)) == next_line(s, i),
        line_index(s, next_line(s, i)) == line_index(s, i) + 1,
{
    lemma_line_bounds(s, i);
    lemma_same_line(s, i, line_end(s, i));
}

/// Moving over one character moves the position by `step_position`.
pub proof fn lemma_position_step(s: Seq<char>, i: int)
    requires
        0 <= i < s.len(),
    ensures
        position_at(s, i + 1) == step_position(position_at(s, i), s[i]),
{
    lemma_line_bounds(s, i);
    lemma_line_bounds(s, i + 1);
    if s[i] == '\n' {
        assert(line_at(s, i + 1).take(0) == Seq::<char>::empty());
    } else {
        lemma_same_line(s, i, i + 1);
        let line = line_at(s, i);
        let ls = line_start(s, i);
        assert(line.take(i + 1 - ls).drop_last() == line.take(i - ls));
    }
}

/// A position never exceeds what the source can hold.
pub proof fn lemma_position_bounds(s: Seq<char>, i: int)
    requires
        0 <= i <= s.len(),
    ensures
        0 <= position_at(s, i).line <= i,
        0 <= position_at(s, i).col32 <= position_at(s, i).col16 <= position_at(s, i).col8
            <= utf8_len(s),
        position_at(s, i).col32 <= i,
{
    lemma_line_bounds(s, i);
    let ls = line_start(s, i);
    let line = line_at(s, i);
    assert(line.take(i - ls) == s.subrange(ls, i));
    lemma_encoded_len_subrange(s, ls, i);
    lemma_encoded_len_order(s.subrange(ls, i));
}

/// A position within a line never exceeds what the line can hold.
pub proof fn lemma_line_position_bounds(li: int, line: Seq<char>, off: int)
    requires
        0 <= off <= line.len(),
    ensures
        0 <= line_position(li, line, off).col32 <= line_position(li, line, off).col16
            <= line_position(li, line, off).col8 <= utf8_len(line),
{
    assert(line.take(off) == line.subrange(0, off));
    lemma_encoded_len_subrange(line, 0, off);
    lemma_encoded_len_order(line.take(off));
}

/// Whether each part of a position fits a `usize`.
pub open spec fn position_fits(p: PositionView) -> bool {
    &&& p.line <= usize::MAX
    &&& p.col8 <= usize::MAX
    &&& p.col16 <= usize::MAX
    &&& p.col32 <= usize::MAX
}

/// The position after the character `ch`, which stood at position `pos`:
/// a newline starts the next line, any other character widens each column
/// by its width in that column's unit.
pub fn advance_position(pos: Position, ch: char) -> (r: Position)
    requires
        position_fits(step_position(pos@, ch)),
    ensures
        r@ == step_position(pos@, ch),
{
    if ch == '\n' {
        Position::new(pos.line + 1, 0, 0, 0)
    } else {
        Position::new(
            pos.line,
            pos.col8 + len_utf8(ch),
            pos.col16 + len_utf16(ch),
            pos.col32 + 1,
        )
    }
}

/// The position of character offset `offset` within a line of the given
/// index.
pub fn position_for_line_offset(line_index: usize, line: &[char], offset: usize) -> (p: Position)
    requires
        offset <= line@.len(),
        utf8_len(line@) <= usize::MAX,
    ensures
        p@ == line_position(line_index as int, line@, offset as int),
{
    let mut col8: usize = 0;
    let mut col16: usize = 0;
    let mut col32: usize = 0;
    while col32 < offset
        invariant
            col32 <= offset <= line@.len(),
            utf8_len(line@) <= usize::MAX,
            col8 == utf8_len(line@.take(col32 as int)),
            col16 == utf16_len(line@.take(col32 as int)),
        decreases offset - col32,
    {
        let ch = line[col32];
        proof {
            assert(line@.take(col32 + 1).drop_last() == line@.take(col32 as int));
            lemma_line_position_bounds(line_index as int, line@, col32 + 1);
        }
        col8 += len_utf8(ch);
        col16 += len_utf16(ch);
        col32 += 1;
    }
    Position::new(line_index, col8, col16, col32)
}

/// The empty span at the start of a line.
pub fn span_at_line_start(line_index: usize) -> (r: Span)
    ensures
        r@ == line_start_span(line_index as int),
{
    let pos = Position::new(line_index, 0, 0, 0);
    Span::new(pos, pos)
}

/// The span of a whole line.
pub fn line_span_from_line(line_index: usize, line: &[char]) -> (r: Span)
    requires
        utf8_len(line@) <= usize::MAX,
    ensures
        r@ == whole_line_span(line_index as int, line@),
{
    let end = position_for_line_offset(line_index, line, line.len());
    Span::new(Position::new(line_index, 0, 0, 0), end)
}

/// The span between two offsets of a line.
pub fn span_for_line_offsets(line_index: usize, line: &[char], start: usize, end: usize) -> (r:
    Span)
    requires
        start <= line@.len(),
        end <= line@.len(),
        utf8_len(line@) <= usize::MAX,
    ensures
        r@ == offsets_span(line_index as int, line@, start as int, end as int),
{
    let start_pos = position_for_line_offset(line_index, line, start);
    let end_pos = position_for_line_offset(line_index, line, end);
    Span::new(start_pos, end_pos)
}

} // verus!
