//! The grammar of a block header: `@name`, bare arguments, an optional
//! bracketed parameter list, and trailing `+` signs.

use smol_str::SmolStr;
use vstd::prelude::*;
use vstd::slice::slice_subrange;

use crate::ast::texts_view;
use crate::scan::{find_char, index_of, lemma_span_end, span_end, trim, trim_range};
use crate::text::{
    ascii_alphanumeric, ascii_whitespace, is_ascii_alphanumeric, is_ascii_whitespace,
    smol_from_chars, smol_text,
};

verus! {

/// What a block header says.
#[derive(Debug, Clone, PartialEq, Eq)]
pub struct HeaderParts {
    /// The block name.
    pub name: SmolStr,
    /// The bare tokens after the name.
    pub args: Vec<SmolStr>,
    /// The key/value pairs of the bracketed list.
    pub params: Vec<(SmolStr, SmolStr)>,
    /// The number of trailing `+` signs.
    pub plus_count: usize,
    /// Whether the header ended right behind the name.
    pub missing_space: bool,
}

/// The mathematical value of [`HeaderParts`].
pub struct HeaderPartsView {
    pub name: Seq<char>,
    pub args: Seq<Seq<char>>,
    pub params: Seq<(Seq<char>, Seq<char>)>,
    pub plus_count: int,
    pub missing_space: bool,
}

/// The views of a sequence of string pairs, element by element.
pub open spec fn pairs_view(s: Seq<(SmolStr, SmolStr)>) -> Seq<(Seq<char>, Seq<char>)> {
    Seq::new(s.len(), |i: int| (smol_text(s[i].0), smol_text(s[i].1)))
}

impl View for HeaderParts {
    type V = HeaderPartsView;

    open spec fn view(&self) -> HeaderPartsView {
        HeaderPartsView {
            name: smol_text(self.name),
            args: texts_view(self.args@),
            params: pairs_view(self.params@),
            plus_count: self.plus_count as int,
            missing_space: self.missing_space,
        }
    }
}

/// The view of optional header parts.
pub open spec fn parts_opt_view(r: Option<HeaderParts>) -> Option<HeaderPartsView> {
    match r {
        Some(p) => Some(p@),
        None => None,
    }
}

/// The characters of a block name: ASCII letters and digits, `_` and `-`.
pub open spec fn name_chars() -> spec_fn(char) -> bool {
    |c: char| ascii_alphanumeric(c) || c == '_' || c == '-'
}

/// ASCII whitespace as a class.
pub open spec fn ascii_spaces() -> spec_fn(char) -> bool {
    |c: char| ascii_whitespace(c)
}

/// The characters of a bare argument: anything but ASCII whitespace, `[`
/// and `+`.
pub open spec fn arg_chars() -> spec_fn(char) -> bool {
    |c: char| !(ascii_whitespace(c) || c == '[' || c == '+')
}

/// The `+` sign as a class.
pub open spec fn plus_signs() -> spec_fn(char) -> bool {
    |c: char| c == '+'
}

/// The bare arguments read from `cursor` on, appended to `acc`, and where
/// reading stopped: at the first `[` or `+` outside a token, or at the end.
pub open spec fn header_args(h: Seq<char>, cursor: int, acc: Seq<Seq<char>>) -> (
    Seq<Seq<char>>,
    int,
)
    decreases h.len() - cursor,
{
    if cursor < 0 || cursor >= h.len() || h[cursor] == '[' || h[cursor] == '+' {
        (acc, cursor)
    } else if ascii_whitespace(h[cursor]) {
        proof {
            lemma_span_end(h, ascii_spaces(), cursor + 1);
        }
        header_args(h, span_end(h, ascii_spaces(), cursor), acc)
    } else {
        let e = span_end(h, arg_chars(), cursor);
        proof {
            lemma_span_end(h, arg_chars(), cursor + 1);
            lemma_span_end(h, ascii_spaces(), e);
        }
        header_args(h, span_end(h, ascii_spaces(), e), acc.push(h.subrange(cursor, e)))
    }
}

/// The key/value pair of one parameter token: the trimmed token is split at
/// its first `=`, both sides trimmed; without `=` the value is empty.
pub open spec fn param_of(token: Seq<char>) -> (Seq<char>, Seq<char>) {
    let t = trim(token);
    let eq = index_of(t, '=', 0);
    if eq >= t.len() {
        (t, Seq::empty())
    } else {
        (trim(t.take(eq)), trim(t.skip(eq + 1)))
    }
}

/// `acc` with the pair of `token` appended, unless the token is blank.
pub open spec fn push_token(acc: Seq<(Seq<char>, Seq<char>)>, token: Seq<char>) -> Seq<
    (Seq<char>, Seq<char>),
> {
    if trim(token).len() == 0 {
        acc
    } else {
        acc.push(param_of(token))
    }
}

/// The parameters read from `cursor` on, where the current token started at
/// `tok_start`, appended to `acc`, and where reading stopped: behind the
/// first `]`, or at the end of the header.  A token that no `,` or `]`
/// closes is dropped.
pub open spec fn header_params(
    h: Seq<char>,
    tok_start: int,
    cursor: int,
    acc: Seq<(Seq<char>, Seq<char>)>,
) -> (Seq<(Seq<char>, Seq<char>)>, int)
    decreases h.len() - cursor,
{
    if cursor < 0 || cursor >= h.len() {
        (acc, cursor)
    } else if h[cursor] == ']' {
        (push_token(acc, h.subrange(tok_start, cursor)), cursor + 1)
    } else if h[cursor] == ',' {
        header_params(h, cursor + 1, cursor + 1, push_token(acc, h.subrange(tok_start, cursor)))
    } else {
        header_params(h, tok_start, cursor + 1, acc)
    }
}

/// What the header text `h` says, or none where it has no name.
///
/// The text starts with `@`; the name is the run of name characters behind
/// it; bare arguments follow, then an optional `[...]` list, then `+` signs.
pub open spec fn header_parts(h: Seq<char>) -> Option<HeaderPartsView> {
    if h.len() == 0 || h[0] != '@' {
        None
    } else {
        let name_end = span_end(h, name_chars(), 1);
        if name_end == 1 {
            None
        } else {
            let c0 = span_end(h, ascii_spaces(), name_end);
            let (args, c1) = header_args(h, c0, Seq::empty());
            let (params, c2) = if 0 <= c1 < h.len() && h[c1] == '[' {
                let (p, n) = header_params(h, c1 + 1, c1 + 1, Seq::empty());
                (p, span_end(h, ascii_spaces(), n))
            } else {
                (Seq::empty(), c1)
            };
            Some(
                HeaderPartsView {
                    name: h.subrange(1, name_end),
                    args,
                    params,
                    plus_count: span_end(h, plus_signs(), c2) - c2,
                    missing_space: name_end == h.len(),
                },
            )
        }
    }
}

/// The closing delimiter of a block: `}` followed by `plus_count` `+` signs.
pub open spec fn close_delim(plus_count: int) -> Seq<char> {
    seq!['}'] + Seq::new(plus_count as nat, |i: int| '+')
}

/// The end of the run of ASCII whitespace that starts at `index`; `index`
/// itself where it lies behind the text.
pub fn skip_spaces(text: &[char], index: usize) -> (r: usize)
    ensures
        r == span_end(text@, ascii_spaces(), index as int),
        index <= r,
        index <= text@.len() ==> r <= text@.len(),
{
    let mut i: usize = index;
    while i < text.len() && is_ascii_whitespace(text[i])
        invariant
            index <= i,
            index <= text@.len() ==> i <= text@.len(),
            span_end(text@, ascii_spaces(), i as int) == span_end(
                text@,
                ascii_spaces(),
                index as int,
            ),
        decreases text@.len() - i,
    {
        i += 1;
    }
    i
}

/// Splits one parameter token into its key and value.
pub fn parse_param_token(token: &[char]) -> (r: (SmolStr, SmolStr))
    ensures
        (smol_text(r.0), smol_text(r.1)) == param_of(token@),
{
    let (a, b) = trim_range(token);
    let t = slice_subrange(token, a, b);
    let eq = find_char(t, '=', 0);
    if eq >= t.len() {
        let empty: Vec<char> = Vec::new();
        assert(empty@ == Seq::<char>::empty());
        (smol_from_chars(t), smol_from_chars(empty.as_slice()))
    } else {
        let key_part = slice_subrange(t, 0, eq);
        let value_part = slice_subrange(t, eq + 1, t.len());
        assert(key_part@ == t@.take(eq as int));
        assert(value_part@ == t@.skip(eq + 1));
        let (ka, kb) = trim_range(key_part);
        let (va, vb) = trim_range(value_part);
        (
            smol_from_chars(slice_subrange(key_part, ka, kb)),
            smol_from_chars(slice_subrange(value_part, va, vb)),
        )
    }
}

/// Reads the bracketed parameter list that starts at `start`; where no `[`
/// stands there, reads nothing.
pub fn parse_params(header: &[char], start: usize) -> (r: (Vec<(SmolStr, SmolStr)>, usize))
    ensures
        start < header@.len() && header@[start as int] == '[' ==> (pairs_view(r.0@), r.1 as int)
            == header_params(header@, start + 1, start + 1, Seq::empty()),
        !(start < header@.len() && header@[start as int] == '[') ==> r.0@.len() == 0 && r.1
            == start,
        start <= r.1,
        start <= header@.len() ==> r.1 <= header@.len(),
{
    let total: usize = header.len();
    let mut params: Vec<(SmolStr, SmolStr)> = Vec::new();
    if !(start < total && header[start] == '[') {
        return (params, start);
    }
    let mut cursor: usize = start + 1;
    let mut tok_start: usize = cursor;
    assert(pairs_view(params@) =~= Seq::empty());
    while cursor < total
        invariant
            start < tok_start <= cursor <= total == header@.len(),
            header@[start as int] == '[',
            header_params(header@, tok_start as int, cursor as int, pairs_view(params@))
                == header_params(header@, start + 1, start + 1, Seq::empty()),
        decreases total - cursor,
    {
        let ch = header[cursor];
        if ch == ']' || ch == ',' {
            let token = slice_subrange(header, tok_start, cursor);
            let (a, b) = trim_range(token);
            if a < b {
                let pair = parse_param_token(token);
                proof {
                    let old_view = pairs_view(params@);
                    assert(pairs_view(params@.push(pair)) =~= old_view.push(param_of(token@)));
                }
                params.push(pair);
            }
            cursor += 1;
            if ch == ']' {
                return (params, cursor);
            }
            tok_start = cursor;
        } else {
            cursor += 1;
        }
    }
    (params, cursor)
}

/// Parses the text of a block header.
pub fn parse_header_parts(header: &[char]) -> (r: Option<HeaderParts>)
    ensures
        parts_opt_view(r) == header_parts(header@),
{
    let total: usize = header.len();
    if total == 0 || header[0] != '@' {
        return None;
    }
    let mut cursor: usize = 1;
    let name_start: usize = cursor;
    while cursor < total && (is_ascii_alphanumeric(header[cursor]) || header[cursor] == '_'
        || header[cursor] == '-')
        invariant
            1 <= cursor <= total == header@.len(),
            span_end(header@, name_chars(), cursor as int) == span_end(header@, name_chars(), 1),
        decreases total - cursor,
    {
        cursor += 1;
    }
    if cursor == name_start {
        return None;
    }
    let name = smol_from_chars(slice_subrange(header, name_start, cursor));
    let missing_space = cursor == total;

    cursor = skip_spaces(header, cursor);
    let ghost c0 = cursor as int;
    let mut args: Vec<SmolStr> = Vec::new();
    assert(texts_view(args@) =~= Seq::empty());
    while cursor < total && header[cursor] != '[' && header[cursor] != '+'
        invariant
            cursor <= total == header@.len(),
            header_args(header@, cursor as int, texts_view(args@)) == header_args(
                header@,
                c0,
                Seq::empty(),
            ),
        decreases total - cursor,
    {
        if is_ascii_whitespace(header[cursor]) {
            proof {
                lemma_span_end(header@, ascii_spaces(), cursor + 1);
            }
            cursor = skip_spaces(header, cursor);
        } else {
            let start = cursor;
            while cursor < total && !(is_ascii_whitespace(header[cursor]) || header[cursor] == '['
                || header[cursor] == '+')
                invariant
                    start <= cursor <= total == header@.len(),
                    span_end(header@, arg_chars(), cursor as int) == span_end(
                        header@,
                        arg_chars(),
                        start as int,
                    ),
                decreases total - cursor,
            {
                cursor += 1;
            }
            proof {
                lemma_span_end(header@, arg_chars(), start + 1);
            }
            let arg = smol_from_chars(slice_subrange(header, start, cursor));
            proof {
                let old_view = texts_view(args@);
                assert(texts_view(args@.push(arg)) =~= old_view.push(
                    header@.subrange(start as int, cursor as int),
                ));
            }
            args.push(arg);
            cursor = skip_spaces(header, cursor);
        }
    }

    let mut params: Vec<(SmolStr, SmolStr)> = Vec::new();
    assert(pairs_view(params@) =~= Seq::empty());
    if cursor < total && header[cursor] == '[' {
        let (parsed, next) = parse_params(header, cursor);
        params = parsed;
        cursor = next;
        cursor = skip_spaces(header, cursor);
    }
    let ghost c2 = cursor as int;

    let mut plus_count: usize = 0;
    while cursor < total && header[cursor] == '+'
        invariant
            0 <= c2 <= cursor <= total == header@.len(),
            plus_count == cursor - c2,
            span_end(header@, plus_signs(), cursor as int) == span_end(header@, plus_signs(), c2),
        decreases total - cursor,
    {
        plus_count += 1;
        cursor += 1;
    }
    Some(HeaderParts { name, args, params, plus_count, missing_space })
}

/// The closing delimiter of a block with `plus_count` trailing `+` signs.
pub fn block_close_delim(plus_count: usize) -> (out: Vec<char>)
    ensures
        out@ == close_delim(plus_count as int),
{
    let mut out: Vec<char> = Vec::new();
    out.push('}');
    let mut i: usize = 0;
    while i < plus_count
        invariant
            i <= plus_count,
            out@ =~= close_delim(i as int),
        decreases plus_count - i,
    {
        out.push('+');
        i += 1;
    }
    out
}

} // verus!
