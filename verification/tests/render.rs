use mdpreview::block::{Block, Inline, RenderedImage};
use mdpreview::highlight::{highlight_block, highlight_blocks, CodeSpan, Color};
use mdpreview::render::{
    content_width, render_block, render_blockquote, render_blocks, render_code_block,
    render_code_spans, render_heading, render_highlighted, render_hr, render_list,
    render_markdown_fast, render_math, render_mermaid, render_paragraph, render_table, Attr, Element,
    Piece, Row,
};

fn piece(text: &str, attrs: &[Attr]) -> Piece {
    Piece::Text { text: text.to_string(), attrs: attrs.to_vec() }
}

fn row(text: &str, attrs: &[Attr]) -> Element {
    Element::Row(Row::Single(piece(text, attrs)))
}

fn line(pieces: Vec<Piece>) -> Element {
    Element::Row(Row::Line(pieces))
}

fn shown(elements: &[Element]) -> String {
    format!("{:?}", elements)
}

#[test]
fn the_content_leaves_ten_columns_free() {
    assert_eq!(content_width(80), 70);
    assert_eq!(content_width(10), 0);
    assert_eq!(content_width(3), 0);
}

#[test]
fn headings_are_styled_by_level() {
    let title = |signs: &str, attrs: &[Attr]| {
        line(vec![piece(signs, &[Attr::Fg(245)]), piece("T", attrs)])
    };
    let expected = [
        vec![
            row("", &[]),
            title("# ", &[Attr::Bold, Attr::Fg(111)]),
            row("━━━━━", &[Attr::Fg(245)]),
            row("", &[]),
        ],
        vec![
            row("", &[]),
            title("## ", &[Attr::Bold, Attr::Fg(114)]),
            row("───", &[Attr::Fg(245)]),
        ],
        vec![row("", &[]), title("### ", &[Attr::Bold, Attr::Fg(222)])],
        vec![title("#### ", &[Attr::Bold])],
        vec![title("##### ", &[Attr::Dim])],
        vec![title("###### ", &[Attr::Dim])],
    ];
    for (i, elements) in expected.iter().enumerate() {
        let mut out = Vec::new();
        render_heading(&mut out, i as u8 + 1, "T", 5);
        assert_eq!(shown(&out), shown(elements));
    }
}

#[test]
fn a_paragraph_wraps_its_pieces() {
    let s = |t: &str| t.to_string();
    let inlines = vec![
        Inline::Text(s("a")),
        Inline::Bold(s("b")),
        Inline::Italic(s("c")),
        Inline::Strikethrough(s("d")),
        Inline::Code(s("e")),
        Inline::Link { text: s("f"), url: s("g") },
        Inline::Math { source: s("\\mu") },
        Inline::SoftBreak,
        Inline::LineBreak,
    ];
    let mut out = Vec::new();
    render_paragraph(&mut out, &inlines);
    let pieces = vec![
        piece("a", &[]),
        piece("b", &[Attr::Bold]),
        piece("c", &[Attr::Italic]),
        piece("d", &[Attr::Strikethrough, Attr::Dim]),
        piece(" e ", &[Attr::Fg(210), Attr::Bg(234)]),
        Piece::Link { text: s("f"), url: s("g"), attrs: vec![Attr::Fg(111), Attr::Underline] },
        piece("μ", &[Attr::Fg(183)]),
        piece(" ", &[]),
        piece(" ", &[]),
    ];
    assert_eq!(shown(&out), shown(&[Element::Row(Row::Wrapped(pieces))]));
    let mut out = Vec::new();
    render_paragraph(&mut out, &[]);
    assert_eq!(shown(&out), "[]");
}

#[test]
fn plain_code_stands_in_a_panel() {
    let mut out = Vec::new();
    render_code_block(&mut out, None, "a\n\nb\n\n", true);
    let code = |text: &str| Row::Single(piece(text, &[Attr::Fg(210)]));
    let panel = Element::Panel {
        bg: 234,
        bars: None,
        px: 4,
        py: 1,
        rows: vec![code("a"), code(""), code("b")],
    };
    assert_eq!(shown(&out), shown(&[row("", &[]), panel, row("", &[])]));
}

#[test]
fn spans_of_code_stand_on_lines() {
    let span = CodeSpan {
        text: "x".to_string(),
        fg: Some(Color::Rgb(1, 2, 3)),
        modifiers: 4,
    };
    let mut out = Vec::new();
    let spans = Some(vec![vec![span.clone()], Vec::new()]);
    render_code_spans(&mut out, Some("l"), "ignored", &spans);
    let panel = Element::Panel {
        bg: 234,
        bars: None,
        px: 4,
        py: 1,
        rows: vec![Row::Line(vec![Piece::Code(span)]), Row::Single(piece("", &[]))],
    };
    let lang = row("l", &[Attr::Dim, Attr::Italic]);
    assert_eq!(shown(&out), shown(&[row("", &[]), lang, panel, row("", &[])]));
}

#[test]
fn code_in_a_known_language_has_colors() {
    let mut out = Vec::new();
    render_code_block(&mut out, Some("rust"), "// note\nfn f() {}\n", true);
    let text = shown(&out);
    // Comments are gray and italic, keywords purple.
    assert!(text.contains("fg: Some(Indexed(245)), modifiers: 4"), "{}", text);
    assert!(text.contains("text: \"fn\", fg: Some(Rgb(198, 120, 221))"), "{}", text);
    // They have other colors in the light theme.
    let mut out = Vec::new();
    render_code_block(&mut out, Some("rust"), "// note\nfn f() {}\n", false);
    let text = shown(&out);
    assert!(text.contains("fg: Some(Rgb(100, 116, 139)), modifiers: 4"), "{}", text);
    assert!(text.contains("text: \"fn\", fg: Some(Rgb(166, 38, 164))"), "{}", text);
}

#[test]
fn diagrams_are_drawn_or_announced() {
    let note = [Attr::Dim, Attr::Italic];
    let image = RenderedImage { rgba: vec![0; 4], width: 1, height: 1 };
    let mut out = Vec::new();
    render_mermaid(&mut out, 7, "graph", &Some(image));
    render_mermaid(&mut out, 7, "graph", &None);
    render_mermaid(&mut out, 7, "", &None);
    assert_eq!(
        shown(&out),
        shown(&[
            Element::Diagram(7),
            row("  ⏳ rendering mermaid...", &note),
            row("  mermaid (empty)", &note),
        ])
    );
}

#[test]
fn formulas_are_centered_or_inline() {
    let mut out = Vec::new();
    render_math(&mut out, "\\pi", true);
    render_math(&mut out, "\\pi", false);
    assert_eq!(
        shown(&out),
        shown(&[
            row("", &[]),
            row("π", &[Attr::Fg(183), Attr::Center]),
            row("", &[]),
            row("π", &[Attr::Fg(183)]),
        ])
    );
}

#[test]
fn lists_quotations_and_rules_are_drawn() {
    let mut out = Vec::new();
    render_list(&mut out, &["a".to_string(), "b".to_string()]);
    render_blockquote(&mut out, "q");
    render_hr(&mut out, 3);
    let bullet = || piece("  • ", &[Attr::Fg(245)]);
    let quote = Element::Panel {
        bg: 234,
        bars: Some(245),
        px: 2,
        py: 1,
        rows: vec![Row::Single(piece("q", &[Attr::Italic, Attr::Dim]))],
    };
    assert_eq!(
        shown(&out),
        shown(&[
            line(vec![bullet(), piece("a", &[])]),
            line(vec![bullet(), piece("b", &[])]),
            quote,
            row("", &[]),
            row("───", &[Attr::Fg(245)]),
            row("", &[]),
        ])
    );
}

#[test]
fn tables_are_drawn_in_columns() {
    let headers = vec!["a".to_string(), "long".to_string()];
    let rows = vec![vec!["xyz".to_string(), "ß".to_string(), "beyond".to_string()]];
    let mut out = Vec::new();
    render_table(&mut out, &headers, &rows);
    let head = [Attr::Bold, Attr::Fg(111)];
    assert_eq!(
        shown(&out),
        shown(&[
            line(vec![piece("a    ", &head), piece("long  ", &head)]),
            line(vec![piece("─────", &[Attr::Fg(245)]), piece("──────", &[Attr::Fg(245)])]),
            line(vec![piece("xyz  ", &[]), piece("ß     ", &[]), piece("beyond    ", &[])]),
        ])
    );
    let mut out = Vec::new();
    render_table(&mut out, &[], &rows);
    assert_eq!(shown(&out), "[]");
}

#[test]
fn blocks_have_an_empty_row_between_them() {
    let blocks = render_markdown_fast("# a\n\n- b\n\n```mermaid\nx\n```\n\n---");
    let spans = highlight_blocks(&blocks, true);
    let elements = render_blocks(&blocks, &spans, 30);
    let mut expected = Vec::new();
    for (i, block) in blocks.iter().enumerate() {
        if i > 0 {
            expected.push(row("", &[]));
        }
        render_block(&mut expected, i, block, &spans[i], 20);
    }
    assert_eq!(shown(&elements), shown(&expected));
    assert_eq!(render_blocks(&[], &[], 30).len(), 0);
}

#[test]
fn highlighted_blocks_are_in_the_theme() {
    let blocks = render_markdown_fast("a\n\n```rust\nfn f() {}\n```\n\n```mermaid\nx\n```");
    let of = |dark: bool| shown(&render_blocks(&blocks, &highlight_blocks(&blocks, dark), 40));
    assert_eq!(shown(&render_highlighted(&blocks, 40, true)), of(true));
    assert_eq!(shown(&render_highlighted(&blocks, 40, false)), of(false));
    assert_ne!(of(true), of(false));
    assert_eq!(render_highlighted(&[], 40, true).len(), 0);
}

#[test]
fn drawn_images_exist() {
    let image = RenderedImage { rgba: vec![0; 4], width: 1, height: 1 };
    let blocks = vec![
        Block::ThematicBreak,
        Block::Mermaid { source: "a".to_string(), image: Some(image) },
        Block::Mermaid { source: "b".to_string(), image: None },
    ];
    let drawn: Vec<usize> = render_blocks(&blocks, &[None, None, None], 80)
        .iter()
        .filter_map(|element| match element {
            Element::Diagram(index) => Some(*index),
            _ => None,
        })
        .collect();
    assert_eq!(drawn, vec![1]);
}

#[test]
fn highlighting_keeps_the_code() {
    let samples = [
        ("fn main() {\n\n    // größe\n}\n\n", "rust"),
        ("x = \"a\" # b\r\nif x:\r\n  y\r\n", "python"),
        ("<p class='x'>é</p>\n<br>", "html"),
        ("\n\n{\"a\": [1, 2]}", "json"),
        ("é=1; echo \"${x}\" <<EOF\nt\nEOF", "bash"),
        ("a:\n  - b\n  - é: |\n      text\n", "yaml"),
    ];
    for (code, lang) in samples {
        let lines = highlight_block(Some(lang), code, true).unwrap();
        let texts: Vec<String> = lines
            .iter()
            .map(|line| line.iter().map(|span| span.text.as_str()).collect())
            .collect();
        let expected: Vec<&str> = code.trim_end().split('\n').collect();
        assert_eq!(texts, expected);
    }
    assert_eq!(highlight_block(Some("rust"), " \n", true).unwrap().len(), 0);
    assert!(highlight_block(None, "x", true).is_none());
    assert!(highlight_block(Some("klingon"), "x", true).is_none());
}

#[test]
fn only_code_blocks_have_spans() {
    let blocks = render_markdown_fast("# a\n\n```rust\nfn f() {}\n```\n\n```\nb\n```\n\n- c");
    let some: Vec<bool> = highlight_blocks(&blocks, true).iter().map(|s| s.is_some()).collect();
    assert_eq!(some, vec![false, true, false, false]);
}
