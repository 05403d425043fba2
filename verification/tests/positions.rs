use lmm::lines::{
    is_comment_line, is_dollar_line, parse_comment_line, parse_text_line, parse_text_segment,
    unescape_text,
};
use lmm::scan::{
    advance_position, find_char, find_sub, position_for_line_offset, skip_ws, skip_ws_back,
    span_for_line_offsets, trim_range,
};
use lmm::text::{len_utf16, len_utf8};
use lmm::{indentation_fits, parse_document, Node, ParseOptions, ParseResult, Position, Span, Text};

fn chars(s: &str) -> Vec<char> {
    s.chars().collect()
}

fn text(v: &[char]) -> String {
    v.iter().collect()
}

fn parse(input: &str) -> ParseResult {
    assert!(indentation_fits(input, ParseOptions::default()));
    parse_document(input)
}

fn text_at(nodes: &[Node], i: usize) -> &Text {
    match &nodes[i] {
        Node::Text(t) => t,
        Node::Block(_) => panic!("node {} is a block, not text", i),
    }
}

#[test]
fn widths_of_characters() {
    assert_eq!(len_utf8('a'), 1);
    assert_eq!(len_utf8('\u{7f}'), 1);
    assert_eq!(len_utf8('\u{80}'), 2);
    assert_eq!(len_utf8('é'), 2);
    assert_eq!(len_utf8('\u{7ff}'), 2);
    assert_eq!(len_utf8('\u{800}'), 3);
    assert_eq!(len_utf8('❤'), 3);
    assert_eq!(len_utf8('\u{ffff}'), 3);
    assert_eq!(len_utf8('\u{10000}'), 4);
    assert_eq!(len_utf8('😀'), 4);
    assert_eq!(len_utf16('a'), 1);
    assert_eq!(len_utf16('❤'), 1);
    assert_eq!(len_utf16('\u{ffff}'), 1);
    assert_eq!(len_utf16('\u{10000}'), 2);
    assert_eq!(len_utf16('😀'), 2);
    for c in ['a', 'é', '❤', '😀', '\u{0}', '\u{10ffff}'] {
        assert_eq!(len_utf8(c), c.len_utf8());
        assert_eq!(len_utf16(c), c.len_utf16());
    }
}

#[test]
fn position_advances_in_three_units() {
    let p = Position::new(2, 5, 4, 3);
    assert_eq!(advance_position(p, 'x'), Position::new(2, 6, 5, 4));
    assert_eq!(advance_position(p, 'é'), Position::new(2, 7, 5, 4));
    assert_eq!(advance_position(p, '❤'), Position::new(2, 8, 5, 4));
    assert_eq!(advance_position(p, '😀'), Position::new(2, 9, 6, 4));
    assert_eq!(advance_position(p, '\n'), Position::new(3, 0, 0, 0));
}

#[test]
fn position_of_an_offset_within_a_line() {
    let line = chars("a😀é❤b");
    assert_eq!(position_for_line_offset(7, &line, 0), Position::new(7, 0, 0, 0));
    assert_eq!(position_for_line_offset(7, &line, 1), Position::new(7, 1, 1, 1));
    assert_eq!(position_for_line_offset(7, &line, 2), Position::new(7, 5, 3, 2));
    assert_eq!(position_for_line_offset(7, &line, 3), Position::new(7, 7, 4, 3));
    assert_eq!(position_for_line_offset(7, &line, 4), Position::new(7, 10, 5, 4));
    assert_eq!(position_for_line_offset(7, &line, 5), Position::new(7, 11, 6, 5));
    assert_eq!(
        span_for_line_offsets(7, &line, 1, 3),
        Span::new(Position::new(7, 1, 1, 1), Position::new(7, 7, 4, 3))
    );
}

#[test]
fn text_span_counts_bytes_units_and_characters() {
    let r = parse("a😀b");
    let t = text_at(&r.document.nodes, 0);
    assert_eq!(t.lines[0].value, "a😀b");
    assert_eq!(
        t.lines[0].span,
        Span::new(Position::new(0, 0, 0, 0), Position::new(0, 6, 4, 3))
    );
}

#[test]
fn columns_reset_on_every_line() {
    let r = parse("😀😀\n  é\n");
    let t = text_at(&r.document.nodes, 0);
    assert_eq!(t.lines.len(), 2);
    assert_eq!(
        t.lines[0].span,
        Span::new(Position::new(0, 0, 0, 0), Position::new(0, 8, 4, 2))
    );
    assert_eq!(
        t.lines[1].span,
        Span::new(Position::new(1, 2, 2, 2), Position::new(1, 4, 3, 3))
    );
}

#[test]
fn comment_span_covers_the_value() {
    let r = parse("  ! note");
    let t = text_at(&r.document.nodes, 0);
    assert!(t.lines[0].is_comment);
    assert_eq!(t.lines[0].indent, 2);
    assert_eq!(t.lines[0].value, "note");
    assert_eq!(
        t.lines[0].span,
        Span::new(Position::new(0, 4, 4, 4), Position::new(0, 8, 8, 8))
    );
}

#[test]
fn comment_after_other_whitespace_keeps_its_value() {
    let r = parse("\u{a0}! hi");
    assert_eq!(r.diagnostics.len(), 0);
    let t = text_at(&r.document.nodes, 0);
    assert!(t.lines[0].is_comment);
    assert_eq!(t.lines[0].indent, 0);
    assert_eq!(t.lines[0].value, "hi");
    assert_eq!(
        t.lines[0].span,
        Span::new(Position::new(0, 4, 3, 3), Position::new(0, 6, 5, 5))
    );
}

#[test]
fn only_spaces_and_tabs_are_indentation() {
    let r = parse(" \u{a0}x");
    let t = text_at(&r.document.nodes, 0);
    assert_eq!(t.lines[0].indent, 1);
    assert_eq!(t.lines[0].value, "\u{a0}x");
}

#[test]
fn doubled_bang_before_a_wide_character() {
    let r = parse("!!é");
    assert_eq!(r.diagnostics.len(), 0);
    let t = text_at(&r.document.nodes, 0);
    assert_eq!(t.lines[0].value, "!é");
    assert!(!t.lines[0].is_comment);
    assert_eq!(
        t.lines[0].span,
        Span::new(Position::new(0, 0, 0, 0), Position::new(0, 2, 2, 2))
    );
}

#[test]
fn skipping_whitespace_both_ways() {
    let s = chars(" \t\u{a0}\u{3000}x y \r\n");
    assert_eq!(skip_ws(&s, 0), 4);
    assert_eq!(skip_ws(&s, 4), 4);
    assert_eq!(skip_ws(&s, 5), 6);
    assert_eq!(skip_ws(&s, s.len()), s.len());
    assert_eq!(skip_ws_back(&s, s.len()), 7);
    assert_eq!(skip_ws_back(&s, 6), 5);
    assert_eq!(skip_ws_back(&s, 4), 0);
    assert_eq!(trim_range(&s), (4, 7));
    let blank = chars(" \n\t ");
    let (a, b) = trim_range(&blank);
    assert_eq!(a, b);
    assert_eq!(trim_range(&[]), (0, 0));
}

#[test]
fn finding_characters_and_substrings() {
    let s = chars("ab}+cd}++");
    assert_eq!(find_char(&s, '}', 0), 2);
    assert_eq!(find_char(&s, '}', 3), 6);
    assert_eq!(find_char(&s, 'z', 0), s.len());
    assert_eq!(find_sub(&s, &chars("}+"), 0, s.len()), Some(2));
    assert_eq!(find_sub(&s, &chars("}++"), 0, s.len()), Some(6));
    assert_eq!(find_sub(&s, &chars("}++"), 0, 8), None);
    assert_eq!(find_sub(&s, &chars("}+"), 3, s.len()), Some(6));
    assert_eq!(find_sub(&s, &chars("}+"), 3, 7), None);
    assert_eq!(find_sub(&s, &chars(""), 4, s.len()), Some(4));
    assert_eq!(find_sub(&s, &chars("ab}+cd}++x"), 0, s.len()), None);
}

#[test]
fn line_shapes() {
    assert!(is_comment_line(&chars("! x")));
    assert!(is_comment_line(&chars("   !x")));
    assert!(is_comment_line(&chars("!")));
    assert!(!is_comment_line(&chars("!! x")));
    assert!(!is_comment_line(&chars("x ! y")));
    assert!(!is_comment_line(&chars("")));
    assert!(is_dollar_line(&chars("$")));
    assert!(is_dollar_line(&chars(" \t$  ")));
    assert!(!is_dollar_line(&chars("$$")));
    assert!(!is_dollar_line(&chars("$ x")));
    assert!(!is_dollar_line(&chars("")));
}

#[test]
fn unescaping_is_one_pass_from_the_left() {
    assert_eq!(text(&unescape_text(&chars("@@"))), "@");
    assert_eq!(text(&unescape_text(&chars("##"))), "#");
    assert_eq!(text(&unescape_text(&chars("{{"))), "{");
    assert_eq!(text(&unescape_text(&chars("@@@"))), "@@");
    assert_eq!(text(&unescape_text(&chars("@@@@"))), "@@");
    assert_eq!(text(&unescape_text(&chars("a@#{b"))), "a@#{b");
    assert_eq!(text(&unescape_text(&chars("}}!!$$"))), "}}!!$$");
    assert_eq!(text(&unescape_text(&chars(""))), "");
    assert_eq!(text(&unescape_text(&chars("@"))), "@");
    assert_eq!(text(&unescape_text(&chars("x##y{{z@@"))), "x#y{z@");
}

#[test]
fn text_segment_in_the_middle_of_a_line_keeps_its_whitespace() {
    let line = chars("@a {  x  } y");
    let opts = ParseOptions::default();
    let seg = parse_text_segment(&line, 3, 4, 9, opts).unwrap();
    assert_eq!(text(&seg.value), "  x  ");
    assert_eq!(seg.indent, 0);
    assert!(!seg.is_comment);
    assert_eq!(
        seg.span,
        Span::new(Position::new(3, 4, 4, 4), Position::new(3, 9, 9, 9))
    );
    assert!(parse_text_segment(&line, 3, 4, 4, opts).is_none());
    assert!(parse_text_segment(&line, 3, 9, 4, opts).is_none());
}

#[test]
fn text_segment_at_line_start_strips_indentation() {
    let line = chars("\t  x  ");
    let opts = ParseOptions::default();
    let seg = parse_text_segment(&line, 0, 0, line.len(), opts).unwrap();
    assert_eq!(seg.indent, 4);
    assert_eq!(text(&seg.value), "x  ");
    assert_eq!(
        seg.span,
        Span::new(Position::new(0, 3, 3, 3), Position::new(0, 6, 6, 6))
    );
    assert!(parse_text_segment(&chars("  \t "), 0, 0, 4, opts).is_none());
}

#[test]
fn whole_lines_are_comments_or_text() {
    let opts = ParseOptions::default();
    let c = parse_text_line(&chars(" ! c"), 1, opts).unwrap();
    assert!(c.is_comment);
    assert_eq!(text(&c.value), "c");
    assert_eq!(c.indent, 1);
    let t = parse_text_line(&chars(" !! c"), 1, opts).unwrap();
    assert!(!t.is_comment);
    assert_eq!(text(&t.value), "! c");
    assert!(parse_comment_line(&chars("x"), 0, opts).is_none());
    assert!(parse_text_line(&chars(""), 0, opts).is_none());
}

#[test]
fn whitespace_is_the_unicode_property() {
    let listed = |c: char| {
        matches!(c,
            '\u{9}'..='\u{d}' | ' ' | '\u{85}' | '\u{a0}' | '\u{1680}'
            | '\u{2000}'..='\u{200a}' | '\u{2028}' | '\u{2029}' | '\u{202f}' | '\u{205f}'
            | '\u{3000}')
    };
    let mut seen = 0;
    for code in 0u32..=0x10ffff {
        if let Some(c) = char::from_u32(code) {
            let skipped = skip_ws(&[c], 0) == 1;
            assert_eq!(skipped, listed(c), "U+{:04X}", code);
            assert_eq!(skipped, c.is_whitespace(), "U+{:04X}", code);
            if skipped {
                seen += 1;
            }
        }
    }
    assert_eq!(seen, 25);
}
