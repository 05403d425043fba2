use lmm::{
    checked_parse_document, collect_part_symbols, indentation_fits, parse_document_with_options,
    render_html, render_markdown, Node, ParseOptions,
};

struct Lcg(u64);

impl Lcg {
    fn next(&mut self) -> u64 {
        self.0 = self.0.wrapping_mul(6364136223846793005).wrapping_add(1442695040888963407);
        self.0 >> 33
    }
}

const PIECES: [&str; 28] = [
    "@", "@a", "@part", "@list", "@code", " ", "  ", "\t", "\n", "\n", "{", "}", "}+", "+", "[",
    "]", "=", ",", "#", "#k: v", ":", "!", "!!", "$", "x", "é", "😀", "\u{a0}",
];

fn sample(rng: &mut Lcg, pieces: usize) -> String {
    let mut s = String::new();
    for _ in 0..pieces {
        s.push_str(PIECES[(rng.next() % PIECES.len() as u64) as usize]);
    }
    s
}

fn lines_are_sound(nodes: &[Node]) -> bool {
    nodes.iter().all(|n| match n {
        Node::Text(t) => {
            !t.lines.is_empty() && t.lines.iter().all(|l| !l.value.is_empty())
        }
        Node::Block(b) => {
            !b.name.is_empty()
                && b.name.chars().all(|c| c.is_ascii_alphanumeric() || c == '_' || c == '-')
                && b.args.iter().all(|a| {
                    !a.is_empty()
                        && a.chars().all(|c| !c.is_ascii_whitespace() && c != '[' && c != '+')
                })
                && b.attrs.iter().all(|a| {
                    !a.key.is_empty() && a.key.trim() == a.key && a.value.trim() == a.value
                })
                && b.params.iter().all(|p| {
                    p.key.trim() == p.key && p.value.trim() == p.value && p.span == b.span
                })
                && lines_are_sound(&b.nodes)
        }
    })
}

fn zero_indents(nodes: &mut [Node]) {
    for n in nodes.iter_mut() {
        match n {
            Node::Text(t) => {
                for l in t.lines.iter_mut() {
                    l.indent = 0;
                }
            }
            Node::Block(b) => zero_indents(&mut b.nodes),
        }
    }
}

#[test]
fn every_input_parses_and_renders() {
    let mut rng = Lcg(0x5eed);
    let other = ParseOptions { space_width: 5, tab_width: 0 };
    for round in 0..1500 {
        let input = sample(&mut rng, 1 + round % 40);
        let r = checked_parse_document(&input, ParseOptions::default()).unwrap();

        for i in 0..r.diagnostics.len() {
            let d = &r.diagnostics[i];
            assert!(d.span.start.line <= d.span.end.line);
            for j in i + 1..r.diagnostics.len() {
                let e = &r.diagnostics[j];
                assert!(d.span.end.line <= e.span.end.line, "{:?}", input);
                if d.span.start != d.span.end && e.span.start != e.span.end {
                    let a = (d.span.start.line, d.span.start.col32);
                    let b = (e.span.start.line, e.span.start.col32);
                    assert!(a <= b, "{:?}", input);
                }
            }
            let construct = d.message != "missing closing delimiter"
                && d.message != "unterminated $ block";
            assert_eq!(construct, d.span.start != d.span.end, "{:?}", input);
        }
        assert!(r.diagnostics.iter().all(|d| d.message != "unexpected trailing content"));
        assert!(lines_are_sound(&r.document.nodes), "{:?}", input);
        assert!(r.document.attrs.iter().all(|a| !a.key.is_empty()));

        let md = render_markdown(&r.document);
        assert!(!md.ends_with('\n'));
        let html = render_html(&r.document);
        assert!(html.starts_with("<div class=\"lmm-document\""));
        assert!(html.ends_with("</div>\n"));
        let _ = collect_part_symbols(&r.document.nodes);
        assert_eq!(r.document.clone(), r.document);

        assert!(indentation_fits(&input, other));
        let mut a = parse_document_with_options(&input, other);
        let mut b = r;
        assert_eq!(a.diagnostics, b.diagnostics);
        assert_eq!(a.document.attrs, b.document.attrs);
        zero_indents(&mut a.document.nodes);
        zero_indents(&mut b.document.nodes);
        assert_eq!(a.document.nodes, b.document.nodes, "{:?}", input);
    }
}

#[test]
fn long_input_is_read_in_one_pass() {
    let mut input = String::new();
    for i in 0..3000 {
        input.push_str("@part Chapter ");
        input.push_str(&i.to_string());
        input.push_str(" {\n  some text with é and 😀\n  ! a remark\n}\n");
    }
    let r = checked_parse_document(&input, ParseOptions::default()).unwrap();
    assert_eq!(r.diagnostics.len(), 0);
    assert_eq!(r.document.nodes.len(), 3000);
    assert_eq!(collect_part_symbols(&r.document.nodes).len(), 3000);
}
