use mdpreview::block::{Block, Inline, RenderedImage};
use mdpreview::catmode::{
    bg, color_to_rgb, fg, indexed_to_rgb, render_block, render_blockquote, render_code_block,
    render_code_spans, render_document, render_heading, render_highlighted, render_hr, render_list,
    render_math, render_mermaid, render_paragraph, render_png, render_table,
};
use mdpreview::highlight::{highlight_blocks, CodeSpan, Color};
use mdpreview::markdown::parse;
use mdpreview::png::rgba_to_png_pub;

const DIM_FG: &str = "\u{1b}[38;2;140;140;140m";
const BLUE_FG: &str = "\u{1b}[38;2;130;170;255m";
const MATH_FG: &str = "\u{1b}[38;2;190;160;250m";
const CODE_BG: &str = "\u{1b}[48;2;35;35;42m";
const PLAIN_FG: &str = "\u{1b}[38;2;200;200;200m";
const RESET: &str = "\u{1b}[0m";
const BOLD: &str = "\u{1b}[1m";

fn heading(level: u8, text: &str, width: usize) -> String {
    let mut w = String::new();
    render_heading(&mut w, level, text, width);
    w
}

fn paragraph(inlines: Vec<Inline>) -> String {
    let mut w = String::new();
    render_paragraph(&mut w, &inlines);
    w
}

#[test]
fn colors_are_written_in_24_bits() {
    assert_eq!(fg(0, 10, 255), "\u{1b}[38;2;0;10;255m");
    assert_eq!(bg(1, 2, 3), "\u{1b}[48;2;1;2;3m");
}

#[test]
fn headings_differ_by_level() {
    assert_eq!(
        heading(1, "T", 5),
        format!("\n{DIM_FG}#{RESET} {BOLD}{BLUE_FG}T{RESET}\n{DIM_FG}━━━━━{RESET}\n\n")
    );
    assert_eq!(
        heading(2, "T", 5),
        format!(
            "\n{DIM_FG}##{RESET} {BOLD}\u{1b}[38;2;130;200;130mT{RESET}\n{DIM_FG}───{RESET}\n"
        )
    );
    assert_eq!(
        heading(3, "T", 5),
        format!("\n{DIM_FG}###{RESET} {BOLD}\u{1b}[38;2;220;200;100mT{RESET}\n")
    );
    assert_eq!(heading(4, "T", 5), format!("{DIM_FG}####{RESET} {BOLD}T{RESET}\n"));
    assert_eq!(heading(5, "T", 5), format!("{DIM_FG}##### T{RESET}\n"));
    assert_eq!(heading(0, "T", 5), format!("{DIM_FG} T{RESET}\n"));
}

#[test]
fn a_paragraph_styles_its_inlines() {
    let s = |t: &str| t.to_string();
    assert_eq!(paragraph(Vec::new()), "\n");
    assert_eq!(
        paragraph(vec![Inline::Text(s("a")), Inline::SoftBreak, Inline::LineBreak]),
        "a  \n"
    );
    assert_eq!(paragraph(vec![Inline::Bold(s("b"))]), "\u{1b}[1mb\u{1b}[0m\n");
    assert_eq!(paragraph(vec![Inline::Italic(s("i"))]), "\u{1b}[3mi\u{1b}[0m\n");
    assert_eq!(paragraph(vec![Inline::Strikethrough(s("s"))]), "\u{1b}[9m\u{1b}[2ms\u{1b}[0m\n");
    assert_eq!(
        paragraph(vec![Inline::Code(s("c"))]),
        "\u{1b}[48;2;30;30;30m\u{1b}[38;2;230;150;150m c \u{1b}[0m\n"
    );
    assert_eq!(
        paragraph(vec![Inline::Link { text: s("t"), url: s("u") }]),
        format!("\u{1b}]8;;u\u{1b}\\\u{1b}[4m{BLUE_FG}t{RESET}\u{1b}]8;;\u{1b}\\\n")
    );
    assert_eq!(
        paragraph(vec![Inline::Math { source: s("\\pi^2") }]),
        format!("{MATH_FG}π²{RESET}\n")
    );
}

#[test]
fn palette_entries_have_colors() {
    assert_eq!(indexed_to_rgb(0), (0, 0, 0));
    assert_eq!(indexed_to_rgb(3), (170, 85, 0));
    assert_eq!(indexed_to_rgb(15), (255, 255, 255));
    assert_eq!(indexed_to_rgb(16), (0, 0, 0));
    assert_eq!(indexed_to_rgb(111), (102, 153, 255));
    assert_eq!(indexed_to_rgb(231), (255, 255, 255));
    assert_eq!(indexed_to_rgb(232), (8, 8, 8));
    assert_eq!(indexed_to_rgb(245), (138, 138, 138));
    assert_eq!(indexed_to_rgb(255), (238, 238, 238));
}

#[test]
fn named_colors_have_values() {
    assert_eq!(color_to_rgb(Color::Rgb(1, 2, 3)), (1, 2, 3));
    assert_eq!(color_to_rgb(Color::Indexed(232)), (8, 8, 8));
    assert_eq!(color_to_rgb(Color::Red), (255, 80, 80));
    assert_eq!(color_to_rgb(Color::Green), (80, 255, 80));
    assert_eq!(color_to_rgb(Color::Blue), (80, 80, 255));
    assert_eq!(color_to_rgb(Color::Yellow), (255, 255, 80));
    assert_eq!(color_to_rgb(Color::Cyan), (80, 255, 255));
    assert_eq!(color_to_rgb(Color::Magenta), (255, 80, 255));
    assert_eq!(color_to_rgb(Color::White), (220, 220, 220));
    assert_eq!(color_to_rgb(Color::Black), (30, 30, 30));
    assert_eq!(color_to_rgb(Color::DarkGray), (200, 200, 200));
    assert_eq!(color_to_rgb(Color::LightRed), (200, 200, 200));
    assert_eq!(color_to_rgb(Color::Reset), (200, 200, 200));
    assert_eq!(color_to_rgb(Color::Other), (200, 200, 200));
}

#[test]
fn plain_code_stands_in_a_box() {
    let mut w = String::new();
    render_code_block(&mut w, None, "ab\n\nlonger line\n\n", 12);
    let empty = format!("{CODE_BG}          {RESET}\n");
    assert_eq!(
        w,
        format!(
            "\n{empty}{CODE_BG}{PLAIN_FG}    ab    {RESET}\n{CODE_BG}{PLAIN_FG}          {RESET}\n{CODE_BG}{PLAIN_FG}    longer line{RESET}\n{empty}\n"
        )
    );
}

#[test]
fn code_in_an_unknown_language_is_plain() {
    let mut w = String::new();
    render_code_block(&mut w, Some("klingon"), "x", 8);
    let empty = format!("{CODE_BG}      {RESET}\n");
    assert_eq!(
        w,
        format!(
            "\n\u{1b}[2m\u{1b}[3mklingon{RESET}\n{empty}{CODE_BG}{PLAIN_FG}    x {RESET}\n{empty}\n"
        )
    );
}

#[test]
fn code_in_a_known_language_is_highlighted() {
    let mut w = String::new();
    render_code_block(&mut w, Some("rust"), "fn main() {}\n", 40);
    assert!(w.contains("fn"));
    assert!(!w.contains(PLAIN_FG));
    // Keywords are purple in the dark theme.
    assert!(w.contains("\u{1b}[38;2;198;120;221mfn"), "{}", w);
    assert!(w.starts_with("\n\u{1b}[2m\u{1b}[3mrust"));
}

#[test]
fn spans_keep_their_colors_and_fill_the_box() {
    let span = |text: &str, fg: Option<Color>| CodeSpan {
        text: text.to_string(),
        fg,
        modifiers: 0,
    };
    let lines = vec![vec![span("ab", Some(Color::Red)), span("c\n", None)], Vec::new()];
    let mut w = String::new();
    render_code_spans(&mut w, Some("x"), "ignored", 12, &Some(lines));
    let empty = format!("{CODE_BG}          {RESET}\n");
    assert_eq!(
        w,
        format!(
            "\n\u{1b}[2m\u{1b}[3mx{RESET}\n{empty}{CODE_BG}    \u{1b}[38;2;255;80;80mab{PLAIN_FG}c   {RESET}\n{CODE_BG}          {RESET}\n{empty}\n"
        )
    );
}

#[test]
fn code_is_padded_by_its_size_in_bytes() {
    let mut w = String::new();
    render_code_block(&mut w, None, "ä", 10);
    assert!(w.contains(&format!("{PLAIN_FG}    ä  {RESET}")), "{:?}", w);
}

#[test]
fn a_narrow_terminal_has_an_empty_box() {
    let mut w = String::new();
    render_code_block(&mut w, None, "x", 1);
    assert_eq!(
        w,
        format!("\n{CODE_BG}{RESET}\n{CODE_BG}{PLAIN_FG}    x{RESET}\n{CODE_BG}{RESET}\n\n")
    );
}

#[test]
fn an_image_is_written_as_a_png_in_base64() {
    let mut w = String::new();
    render_png(&mut w, &Some(vec![0xfb, 0xff, 0x00, 0x41]));
    assert_eq!(
        w,
        "\u{1b}]1337;File=inline=1;width=auto;preserveAspectRatio=1:+/8AQQ==\u{7}\n"
    );
    let mut w = String::new();
    render_png(&mut w, &None);
    assert_eq!(w, "");
}

#[test]
fn base64_pads_the_last_group() {
    let cases: [(&[u8], &str); 5] = [
        (b"", ""),
        (b"f", "Zg=="),
        (b"fo", "Zm8="),
        (b"foo", "Zm9v"),
        (b"foobar", "Zm9vYmFy"),
    ];
    for (bytes, text) in cases {
        let mut w = String::new();
        render_png(&mut w, &Some(bytes.to_vec()));
        assert_eq!(
            w,
            format!("\u{1b}]1337;File=inline=1;width=auto;preserveAspectRatio=1:{}\u{7}\n", text)
        );
    }
}

#[test]
fn pixels_become_a_png_file() {
    let rgba: Vec<u8> = vec![255, 0, 0, 255, 0, 255, 0, 255];
    let png = rgba_to_png_pub(&rgba, 2, 1).unwrap();
    assert_eq!(&png[..8], &[0x89, b'P', b'N', b'G', 0x0d, 0x0a, 0x1a, 0x0a]);
    let decoded = image::load_from_memory(&png).unwrap().to_rgba8();
    assert_eq!(decoded.dimensions(), (2, 1));
    assert_eq!(decoded.into_raw(), rgba);
}

#[test]
fn an_image_without_pixels_is_no_png_file() {
    assert!(rgba_to_png_pub(&[], 0, 0).is_none());
}

#[test]
fn a_diagram_is_an_image_or_a_note() {
    let image = RenderedImage { rgba: vec![1, 2, 3, 255], width: 1, height: 1 };
    let mut w = String::new();
    render_mermaid(&mut w, &Some(image));
    assert!(w.starts_with("\u{1b}]1337;File=inline=1;width=auto;preserveAspectRatio=1:iVBORw0KGgo"));
    assert!(w.ends_with("\u{7}\n"));
    let mut w = String::new();
    render_mermaid(&mut w, &None);
    assert_eq!(w, format!("{DIM_FG}  (mermaid render failed){RESET}\n"));
}

#[test]
fn formulas_are_displayed_or_inline() {
    let mut w = String::new();
    render_math(&mut w, "\\alpha", true);
    assert_eq!(w, format!("\n    {MATH_FG}α{RESET}\n\n"));
    let mut w = String::new();
    render_math(&mut w, "\\alpha", false);
    assert_eq!(w, format!("{MATH_FG}α{RESET}"));
}

#[test]
fn lists_have_bullets() {
    let mut w = String::new();
    render_list(&mut w, &["a".to_string(), "b".to_string()]);
    assert_eq!(w, format!("  {DIM_FG}•{RESET}  a\n  {DIM_FG}•{RESET}  b\n"));
    let mut w = String::new();
    render_list(&mut w, &[]);
    assert_eq!(w, "");
}

#[test]
fn quotations_have_a_bar() {
    let mut w = String::new();
    render_blockquote(&mut w, "q");
    let shade = "\u{1b}[48;2;20;20;20m";
    assert_eq!(
        w,
        format!("{shade}  {DIM_FG}│{RESET}{shade}  \u{1b}[3m\u{1b}[2mq{RESET}\n")
    );
}

#[test]
fn rules_fill_the_width() {
    let mut w = String::new();
    render_hr(&mut w, 4);
    assert_eq!(w, format!("\n{DIM_FG}────{RESET}\n\n"));
}

#[test]
fn tables_have_columns_that_line_up() {
    let headers = vec!["a".to_string(), "long".to_string()];
    let rows = vec![
        vec!["xyz".to_string(), "ß".to_string()],
        vec!["1".to_string(), "2".to_string(), "beyond".to_string()],
    ];
    let mut w = String::new();
    render_table(&mut w, &headers, &rows);
    assert_eq!(
        w,
        format!(
            "{BOLD}{BLUE_FG}a    {RESET}{BOLD}{BLUE_FG}long  {RESET}\n{DIM_FG}─────{RESET}{DIM_FG}──────{RESET}\nxyz  ß     \n1    2     beyond    \n"
        )
    );
    let mut w = String::new();
    render_table(&mut w, &[], &rows);
    assert_eq!(w, "");
}

#[test]
fn blocks_are_separated_by_empty_lines() {
    let blocks = parse("- a\n\n> b\n\ntext");
    let spans = highlight_blocks(&blocks, true);
    let document = render_document(&blocks, &spans, 80);
    let mut parts: Vec<String> = Vec::new();
    for (block, spans) in blocks.iter().zip(&spans) {
        let mut w = String::new();
        render_block(&mut w, block, spans, 76, 80);
        parts.push(w);
    }
    assert_eq!(document, parts.join("\n"));
    assert_eq!(render_document(&[], &[], 80), "");
}

#[test]
fn a_highlighted_document_is_in_the_dark_theme() {
    let blocks = parse("# a\n\n```rust\nfn f() {}\n```\n\n```klingon\nx\n```\n\n- l");
    let dark = render_document(&blocks, &highlight_blocks(&blocks, true), 40);
    let light = render_document(&blocks, &highlight_blocks(&blocks, false), 40);
    let text = render_highlighted(&blocks, 40);
    assert_eq!(text, dark);
    assert_ne!(text, light);
    assert!(text.contains("\x1b[38;2;198;120;221m"));
    assert_eq!(render_highlighted(&[], 40), "");
}

#[test]
fn a_document_of_two_parts_is_both_with_a_line_between() {
    let blocks = parse("# a\n\n---\n\n```\nx\n```\n\n```rust\nfn f() {}\n```\n\n- l");
    let spans = highlight_blocks(&blocks, true);
    for n in 1..blocks.len() {
        assert_eq!(
            render_document(&blocks, &spans, 30),
            format!(
                "{}\n{}",
                render_document(&blocks[..n], &spans[..n], 30),
                render_document(&blocks[n..], &spans[n..], 30)
            )
        );
    }
}

#[test]
fn rules_leave_four_columns_free() {
    let blocks = [Block::ThematicBreak];
    assert_eq!(render_document(&blocks, &[None], 9), format!("\n{DIM_FG}─────{RESET}\n\n"));
    assert_eq!(render_document(&blocks, &[None], 3), format!("\n{DIM_FG}{RESET}\n\n"));
}
