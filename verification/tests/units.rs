use lmm::header::{
    block_close_delim, parse_header_parts, parse_param_token, parse_params, skip_spaces,
};
use lmm::lines::{find_block_header_start, finalize_text, is_blank_line, measure_indent, LineBuf};
use lmm::scan::{line_span_from_line, matches_at, span_at_line_start};
use lmm::text::{
    chars_eq, is_ascii_alphanumeric, is_ascii_whitespace, smol_from_str, str_eq, str_to_chars,
    to_ascii_lowercase,
};
use lmm::{ParseOptions, Position, Span};

fn chars(s: &str) -> Vec<char> {
    s.chars().collect()
}

fn text(v: &[char]) -> String {
    v.iter().collect()
}

#[test]
fn characters_of_a_string() {
    assert_eq!(str_to_chars("aé😀"), vec!['a', 'é', '😀']);
    assert_eq!(str_to_chars(""), Vec::<char>::new());
    assert_eq!(smol_from_str("héllo"), "héllo");
    assert_eq!(smol_from_str("a string that is too long to be kept inline"),
        "a string that is too long to be kept inline");
    assert_eq!(smol_from_str(""), "");
}

#[test]
fn equality_of_strings_and_slices() {
    assert!(str_eq("part", "part"));
    assert!(!str_eq("part", "parts"));
    assert!(!str_eq("part", "Part"));
    assert!(str_eq("", ""));
    assert!(!str_eq("", "x"));
    assert!(chars_eq(&chars("ab"), &chars("ab")));
    assert!(!chars_eq(&chars("ab"), &chars("ac")));
    assert!(!chars_eq(&chars("ab"), &chars("a")));
    assert!(matches_at(&chars("xx}+y"), &chars("}+"), 2));
    assert!(!matches_at(&chars("xx}+y"), &chars("}+"), 1));
    assert!(matches_at(&chars("xx"), &chars(""), 2));
}

#[test]
fn ascii_classes_agree_with_the_standard_library() {
    for code in 0u32..0x300 {
        let c = char::from_u32(code).unwrap();
        assert_eq!(is_ascii_alphanumeric(c), c.is_ascii_alphanumeric());
        assert_eq!(is_ascii_whitespace(c), c.is_ascii_whitespace());
        assert_eq!(to_ascii_lowercase(c), c.to_ascii_lowercase());
    }
    assert_eq!(to_ascii_lowercase('Q'), 'q');
    assert_eq!(to_ascii_lowercase('É'), 'É');
    assert!(!is_ascii_whitespace('\u{b}'));
    assert!(!is_ascii_whitespace('\u{a0}'));
}

#[test]
fn spans_of_lines() {
    assert_eq!(
        span_at_line_start(4),
        Span::new(Position::new(4, 0, 0, 0), Position::new(4, 0, 0, 0))
    );
    assert_eq!(
        line_span_from_line(2, &chars("é😀")),
        Span::new(Position::new(2, 0, 0, 0), Position::new(2, 6, 3, 2))
    );
}

#[test]
fn header_start_and_blank_lines() {
    assert_eq!(find_block_header_start(&chars("@a")), Some((0, 0)));
    assert_eq!(find_block_header_start(&chars(" \t@a")), Some((2, 2)));
    assert_eq!(find_block_header_start(&chars("x @a")), None);
    assert_eq!(find_block_header_start(&chars("")), None);
    assert!(is_blank_line(&chars("")));
    assert!(is_blank_line(&chars(" \t\u{a0}\r")));
    assert!(!is_blank_line(&chars(" . ")));
}

#[test]
fn indentation_is_weighed_by_the_options() {
    let o = ParseOptions { space_width: 3, tab_width: 10 };
    assert_eq!(measure_indent(&chars("  \t x"), o), (Some(19), 4));
    assert_eq!(measure_indent(&chars("x  "), o), (Some(0), 0));
    assert_eq!(measure_indent(&chars(" \t"), o), (Some(13), 2));
    assert_eq!(measure_indent(&chars(""), o), (Some(0), 0));
    assert_eq!(measure_indent(&chars(" \u{a0} "), o), (Some(3), 1));
}

#[test]
fn skip_spaces_moves_over_ascii_whitespace_only() {
    let s = chars(" \t\r\n\u{c}x \u{a0}y");
    assert_eq!(skip_spaces(&s, 0), 5);
    assert_eq!(skip_spaces(&s, 5), 5);
    assert_eq!(skip_spaces(&s, 6), 7);
    assert_eq!(skip_spaces(&s, s.len()), s.len());
}

#[test]
fn parameter_tokens() {
    let (k, v) = parse_param_token(&chars(" key = some value "));
    assert_eq!((k.as_str(), v.as_str()), ("key", "some value"));
    let (k, v) = parse_param_token(&chars("flag"));
    assert_eq!((k.as_str(), v.as_str()), ("flag", ""));
    let (k, v) = parse_param_token(&chars("a=b=c"));
    assert_eq!((k.as_str(), v.as_str()), ("a", "b=c"));
    let (k, v) = parse_param_token(&chars("=v"));
    assert_eq!((k.as_str(), v.as_str()), ("", "v"));
    let (k, v) = parse_param_token(&chars("k="));
    assert_eq!((k.as_str(), v.as_str()), ("k", ""));
}

#[test]
fn parameter_lists() {
    let h = chars("@a [x=1, y] rest");
    let (params, next) = parse_params(&h, 3);
    assert_eq!(next, 11);
    assert_eq!(params.len(), 2);
    assert_eq!((params[0].0.as_str(), params[0].1.as_str()), ("x", "1"));
    assert_eq!((params[1].0.as_str(), params[1].1.as_str()), ("y", ""));
    let (params, next) = parse_params(&h, 1);
    assert_eq!(next, 1);
    assert_eq!(params.len(), 0);
    let open = chars("[a, b");
    let (params, next) = parse_params(&open, 0);
    assert_eq!(next, 5);
    assert_eq!(params.len(), 1);
    assert_eq!(params[0].0.as_str(), "a");
    let (params, next) = parse_params(&chars("[]"), 0);
    assert_eq!((params.len(), next), (0, 2));
    let (params, next) = parse_params(&chars("x"), 1);
    assert_eq!((params.len(), next), (0, 1));
}

#[test]
fn header_parts() {
    let p = parse_header_parts(&chars("@code one  two [lang = rust, x]  ++ ")).unwrap();
    assert_eq!(p.name, "code");
    assert_eq!(p.args.len(), 2);
    assert_eq!(p.args[0], "one");
    assert_eq!(p.args[1], "two");
    assert_eq!(p.params.len(), 2);
    assert_eq!((p.params[0].0.as_str(), p.params[0].1.as_str()), ("lang", "rust"));
    assert_eq!((p.params[1].0.as_str(), p.params[1].1.as_str()), ("x", ""));
    assert_eq!(p.plus_count, 2);
    assert!(!p.missing_space);

    let p = parse_header_parts(&chars("@a")).unwrap();
    assert_eq!(p.name, "a");
    assert!(p.missing_space);
    assert_eq!((p.args.len(), p.params.len(), p.plus_count), (0, 0, 0));

    let p = parse_header_parts(&chars("@a+++")).unwrap();
    assert_eq!(p.plus_count, 3);
    assert!(!p.missing_space);

    let p = parse_header_parts(&chars("@a + +")).unwrap();
    assert_eq!(p.plus_count, 1);

    let p = parse_header_parts(&chars("@a[k=v]x")).unwrap();
    assert_eq!(p.params.len(), 1);
    assert_eq!(p.plus_count, 0);
    assert_eq!(p.args.len(), 0);

    assert!(parse_header_parts(&chars("@")).is_none());
    assert!(parse_header_parts(&chars("@ x")).is_none());
    assert!(parse_header_parts(&chars("@é")).is_none());
    assert!(parse_header_parts(&chars("")).is_none());
    assert!(parse_header_parts(&chars("a")).is_none());
}

#[test]
fn closing_delimiters() {
    assert_eq!(text(&block_close_delim(0)), "}");
    assert_eq!(text(&block_close_delim(1)), "}+");
    assert_eq!(text(&block_close_delim(3)), "}+++");
}

#[test]
fn finalize_text_unescapes_each_line() {
    let span = Span::new(Position::new(0, 0, 0, 0), Position::new(0, 2, 2, 2));
    let lines = vec![
        LineBuf { indent: 2, value: chars("a@@b"), span, is_comment: false },
        LineBuf { indent: 0, value: chars("##"), span, is_comment: true },
    ];
    let t = finalize_text(lines);
    assert_eq!(t.lines.len(), 2);
    assert_eq!(t.lines[0].value, "a@b");
    assert_eq!(t.lines[0].indent, 2);
    assert!(!t.lines[0].is_comment);
    assert_eq!(t.lines[0].span, span);
    assert_eq!(t.lines[1].value, "#");
    assert!(t.lines[1].is_comment);
    assert_eq!(finalize_text(Vec::new()).lines.len(), 0);
}

#[test]
fn an_index_behind_the_text_is_handed_back() {
    let s = chars(" [a] ");
    assert_eq!(skip_spaces(&s, 9), 9);
    assert_eq!(skip_spaces(&s, usize::MAX), usize::MAX);
    let (params, next) = parse_params(&s, 9);
    assert_eq!((params.len(), next), (0, 9));
    let (params, next) = parse_params(&s, s.len());
    assert_eq!((params.len(), next), (0, s.len()));
}
