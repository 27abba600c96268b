//! Cat mode: a document as text with ANSI styling and inline images.
use crate::block::{blocks_wf, Block, BlockV, ImageV, Inline, InlineV, RenderedImage};
use crate::highlight::{
    highlight_block, highlight_blocks, is_block_highlighting, is_document_highlighting,
    is_highlighting, BlockSpans, BlockSpansV, CodeSpan, CodeSpanV, Color,
};
use crate::math::{math_text, unicode_math};
use crate::png::{base64_of, encode_base64, png_of, rgba_to_png_pub};
use crate::table::{column_size, column_sizes, column_width, padded, push_padded};
use crate::text::{
    byte_len, byte_length, decimal, lemma_concat_assoc, lemma_concat_empty, lines, lines_of,
    padding, push_decimal, push_repeated, repeated, trim_end, trim_newlines, trimmed_end,
    without_newlines,
};
use vstd::prelude::*;
use vstd::utf8::{is_ascii_chars, is_ascii_chars_encode_utf8};

verus! {

broadcast use {lemma_concat_assoc, lemma_concat_empty};

/// Ends every style.
pub const RESET: &'static str = "\x1b[0m";

pub const BOLD: &'static str = "\x1b[1m";

pub const DIM: &'static str = "\x1b[2m";

pub const ITALIC: &'static str = "\x1b[3m";

pub const UNDERLINE: &'static str = "\x1b[4m";

pub const STRIKE: &'static str = "\x1b[9m";

/// The sequence that sets a 24-bit foreground color.
#[verifier::opaque]
pub open spec fn fg_code(r: u8, g: u8, b: u8) -> Seq<char> {
    "\x1b[38;2;"@ + decimal(r as nat) + ";"@ + decimal(g as nat) + ";"@ + decimal(b as nat) + "m"@
}

/// The sequence that sets a 24-bit background color.
#[verifier::opaque]
pub open spec fn bg_code(r: u8, g: u8, b: u8) -> Seq<char> {
    "\x1b[48;2;"@ + decimal(r as nat) + ";"@ + decimal(g as nat) + ";"@ + decimal(b as nat) + "m"@
}

/// The gray of rules, markers and heading signs.
pub open spec fn dim_code() -> Seq<char> {
    fg_code(140, 140, 140)
}

/// The blue of first-level headings, links and table headers.
pub open spec fn blue_code() -> Seq<char> {
    fg_code(130, 170, 255)
}

/// The violet of formulas.
pub open spec fn math_code() -> Seq<char> {
    fg_code(190, 160, 250)
}

/// Appends the red, green and blue parts of a color sequence and its end.
fn push_rgb(out: &mut String, r: u8, g: u8, b: u8)
    ensures
        final(out)@ == old(out)@ + decimal(r as nat) + ";"@ + decimal(g as nat) + ";"@ + decimal(
            b as nat,
        ) + "m"@,
{
    push_decimal(out, r);
    out.append(";");
    push_decimal(out, g);
    out.append(";");
    push_decimal(out, b);
    out.append("m");
}

/// The sequence that sets a 24-bit foreground color.
pub fn fg(r: u8, g: u8, b: u8) -> (s: String)
    ensures
        s@ == fg_code(r, g, b),
{
    reveal(fg_code);
    let mut s = String::new();
    s.append("\x1b[38;2;");
    assert(s@ =~= "\x1b[38;2;"@);
    push_rgb(&mut s, r, g, b);
    s
}

/// The sequence that sets a 24-bit background color.
pub fn bg(r: u8, g: u8, b: u8) -> (s: String)
    ensures
        s@ == bg_code(r, g, b),
{
    reveal(bg_code);
    let mut s = String::new();
    s.append("\x1b[48;2;");
    assert(s@ =~= "\x1b[48;2;"@);
    push_rgb(&mut s, r, g, b);
    s
}

/// A heading: its signs and its text, with a rule below it at the first two levels and an empty
/// line above it at the first three.
pub open spec fn heading_text(level: u8, text: Seq<char>, width: nat) -> Seq<char> {
    let signs = dim_code() + repeated('#', level as nat);
    if level == 1 {
        "\n"@ + signs + RESET@ + " "@ + BOLD@ + blue_code() + text + RESET@ + "\n"@ + dim_code()
            + repeated('━', width) + RESET@ + "\n"@ + "\n"@
    } else if level == 2 {
        "\n"@ + signs + RESET@ + " "@ + BOLD@ + fg_code(130, 200, 130) + text + RESET@ + "\n"@
            + dim_code() + repeated('─', width * 2 / 3) + RESET@ + "\n"@
    } else if level == 3 {
        "\n"@ + signs + RESET@ + " "@ + BOLD@ + fg_code(220, 200, 100) + text + RESET@ + "\n"@
    } else if level == 4 {
        signs + RESET@ + " "@ + BOLD@ + text + RESET@ + "\n"@
    } else {
        signs + " "@ + text + RESET@ + "\n"@
    }
}

/// Appends a heading.
pub fn render_heading(w: &mut String, level: u8, text: &str, width: usize)
    requires
        level == 2 ==> width * 2 <= usize::MAX,
    ensures
        final(w)@ == old(w)@ + heading_text(level, text@, width as nat),
{
    let dim = fg(140, 140, 140);
    if level == 1 || level == 2 || level == 3 {
        w.append("\n");
    }
    w.append(dim.as_str());
    push_repeated(w, '#', level as usize);
    if level <= 4 && level >= 1 {
        w.append(RESET);
        w.append(" ");
        w.append(BOLD);
        if level == 1 {
            w.append(fg(130, 170, 255).as_str());
        } else if level == 2 {
            w.append(fg(130, 200, 130).as_str());
        } else if level == 3 {
            w.append(fg(220, 200, 100).as_str());
        }
    } else {
        w.append(" ");
    }
    w.append(text);
    w.append(RESET);
    w.append("\n");
    if level == 1 {
        w.append(dim.as_str());
        push_repeated(w, '━', width);
        w.append(RESET);
        w.append("\n");
        w.append("\n");
    } else if level == 2 {
        w.append(dim.as_str());
        push_repeated(w, '─', width * 2 / 3);
        w.append(RESET);
        w.append("\n");
    }
}

/// A run of text in its style; a link is an OSC 8 hyperlink.
#[verifier::opaque]
pub open spec fn inline_text(inline: InlineV) -> Seq<char> {
    match inline {
        InlineV::Text(t) => t,
        InlineV::Bold(t) => BOLD@ + t + RESET@,
        InlineV::Italic(t) => ITALIC@ + t + RESET@,
        InlineV::Strikethrough(t) => STRIKE@ + DIM@ + t + RESET@,
        InlineV::Code(t) => bg_code(30, 30, 30) + fg_code(230, 150, 150) + " "@ + t + " "@ + RESET@,
        InlineV::Link { text, url } => "\x1b]8;;"@ + url + "\x1b\\"@ + UNDERLINE@ + blue_code()
            + text + RESET@ + "\x1b]8;;\x1b\\"@,
        InlineV::Math { source } => math_code() + math_text(source) + RESET@,
        InlineV::SoftBreak => " "@,
        InlineV::LineBreak => " "@,
    }
}

/// Several runs, one after the other.
pub open spec fn inlines_text(inlines: Seq<InlineV>) -> Seq<char>
    decreases inlines.len(),
{
    if inlines.len() == 0 {
        Seq::empty()
    } else {
        inlines_text(inlines.drop_last()) + inline_text(inlines.last())
    }
}

/// Appends a run of text in its style.
fn render_inline(w: &mut String, inline: &Inline)
    ensures
        final(w)@ == old(w)@ + inline_text(inline.deep_view()),
{
    reveal(inline_text);
    match inline {
        Inline::Text(t) => {
            w.append(t.as_str());
        },
        Inline::Bold(t) => {
            w.append(BOLD);
            w.append(t.as_str());
            w.append(RESET);
        },
        Inline::Italic(t) => {
            w.append(ITALIC);
            w.append(t.as_str());
            w.append(RESET);
        },
        Inline::Strikethrough(t) => {
            w.append(STRIKE);
            w.append(DIM);
            w.append(t.as_str());
            w.append(RESET);
        },
        Inline::Code(t) => {
            w.append(bg(30, 30, 30).as_str());
            w.append(fg(230, 150, 150).as_str());
            w.append(" ");
            w.append(t.as_str());
            w.append(" ");
            w.append(RESET);
        },
        Inline::Link { text, url } => {
            w.append("\x1b]8;;");
            w.append(url.as_str());
            w.append("\x1b\\");
            w.append(UNDERLINE);
            w.append(fg(130, 170, 255).as_str());
            w.append(text.as_str());
            w.append(RESET);
            w.append("\x1b]8;;\x1b\\");
        },
        Inline::Math { source } => {
            w.append(fg(190, 160, 250).as_str());
            w.append(unicode_math(source.as_str()).as_str());
            w.append(RESET);
        },
        Inline::SoftBreak => {
            w.append(" ");
        },
        Inline::LineBreak => {
            w.append(" ");
        },
    }
}

/// Appends a paragraph.
pub fn render_paragraph(w: &mut String, inlines: &[Inline])
    ensures
        final(w)@ == old(w)@ + inlines_text(inlines.deep_view()) + "\n"@,
{
    let ghost all = inlines.deep_view();
    let ghost base = w@;
    let mut i: usize = 0;
    assert(all.take(0) =~= Seq::empty());
    while i < inlines.len()
        invariant
            i <= inlines@.len(),
            all == inlines.deep_view(),
            w@ == base + inlines_text(all.take(i as int)),
        decreases inlines@.len() - i,
    {
        render_inline(w, &inlines[i]);
        assert(all.take(i + 1).drop_last() =~= all.take(i as int));
        i += 1;
    }
    assert(all.take(all.len() as int) =~= all);
    w.append("\n");
}

/// The RGB value that stands for an entry of the 256-color palette: sixteen basic colors, a cube
/// of six steps for each part, and a ramp of grays.
pub open spec fn palette_rgb(n: u8) -> (u8, u8, u8) {
    if n == 0 {
        (0, 0, 0)
    } else if n == 3 {
        (170, 85, 0)
    } else if n < 8 {
        (
            if n % 2 == 1 { 170 } else { 0 },
            if n / 2 % 2 == 1 { 170 } else { 0 },
            if n / 4 == 1 { 170 } else { 0 },
        )
    } else if n < 16 {
        (
            if n % 2 == 1 { 255 } else { 85 },
            if n / 2 % 2 == 1 { 255 } else { 85 },
            if n / 4 % 2 == 1 { 255 } else { 85 },
        )
    } else if n < 232 {
        let i = n - 16;
        ((i / 36 * 51) as u8, (i % 36 / 6 * 51) as u8, (i % 6 * 51) as u8)
    } else {
        let v = (8 + (n - 232) * 10) as u8;
        (v, v, v)
    }
}

/// Convert 256-color index to approximate RGB.
pub fn indexed_to_rgb(n: u8) -> (rgb: (u8, u8, u8))
    ensures
        rgb == palette_rgb(n),
{
    match n {
        0 => (0, 0, 0),
        1 => (170, 0, 0),
        2 => (0, 170, 0),
        3 => (170, 85, 0),
        4 => (0, 0, 170),
        5 => (170, 0, 170),
        6 => (0, 170, 170),
        7 => (170, 170, 170),
        8 => (85, 85, 85),
        9 => (255, 85, 85),
        10 => (85, 255, 85),
        11 => (255, 255, 85),
        12 => (85, 85, 255),
        13 => (255, 85, 255),
        14 => (85, 255, 255),
        15 => (255, 255, 255),
        _ => if n < 232 {
            let i: u8 = n - 16;
            let r: u8 = (i / 36) * 51;
            let g: u8 = ((i % 36) / 6) * 51;
            let b: u8 = (i % 6) * 51;
            (r, g, b)
        } else {
            let v: u8 = 8 + (n - 232) * 10;
            (v, v, v)
        },
    }
}

/// The RGB value of a color.
pub open spec fn color_rgb(c: Color) -> (u8, u8, u8) {
    match c {
        Color::Rgb(r, g, b) => (r, g, b),
        Color::Indexed(n) => palette_rgb(n),
        Color::Red => (255, 80, 80),
        Color::Green => (80, 255, 80),
        Color::Blue => (80, 80, 255),
        Color::Yellow => (255, 255, 80),
        Color::Cyan => (80, 255, 255),
        Color::Magenta => (255, 80, 255),
        Color::White => (220, 220, 220),
        Color::Black => (30, 30, 30),
        _ => (200, 200, 200),
    }
}

/// The RGB value of a color.
pub fn color_to_rgb(c: Color) -> (rgb: (u8, u8, u8))
    ensures
        rgb == color_rgb(c),
{
    match c {
        Color::Rgb(r, g, b) => (r, g, b),
        Color::Indexed(n) => indexed_to_rgb(n),
        Color::Red => (255, 80, 80),
        Color::Green => (80, 255, 80),
        Color::Blue => (80, 80, 255),
        Color::Yellow => (255, 255, 80),
        Color::Cyan => (80, 255, 255),
        Color::Magenta => (255, 80, 255),
        Color::White => (220, 220, 220),
        Color::Black => (30, 30, 30),
        _ => (200, 200, 200),
    }
}

/// The width of the box around code: two columns less than the terminal.
pub open spec fn box_width(cols: u16) -> nat {
    padding(cols as nat, 2)
}

/// The background of code.
pub open spec fn code_bg_code() -> Seq<char> {
    bg_code(35, 35, 42)
}

/// The color of code without a color of its own.
pub open spec fn code_fg_code() -> Seq<char> {
    fg_code(200, 200, 200)
}

/// An empty row of the box.
#[verifier::opaque]
pub open spec fn box_row(bw: nat) -> Seq<char> {
    code_bg_code() + repeated(' ', bw) + RESET@ + "\n"@
}

/// A row of plain code, indented by four and padded to fill the box.
#[verifier::opaque]
pub open spec fn plain_row(line: Seq<char>, bw: nat) -> Seq<char> {
    code_bg_code() + code_fg_code() + "    "@ + line + repeated(
        ' ',
        padding(bw, 4 + byte_len(line)),
    ) + RESET@ + "\n"@
}

/// Rows of plain code.
pub open spec fn plain_rows(code: Seq<Seq<char>>, bw: nat) -> Seq<char>
    decreases code.len(),
{
    if code.len() == 0 {
        Seq::empty()
    } else {
        plain_rows(code.drop_last(), bw) + plain_row(code.last(), bw)
    }
}

/// A span of code in its color.
#[verifier::opaque]
pub open spec fn span_text(span: CodeSpanV) -> Seq<char> {
    let color = match span.fg {
        Some(c) => {
            let (r, g, b) = color_rgb(c);
            fg_code(r, g, b)
        },
        None => code_fg_code(),
    };
    color + without_newlines(span.text)
}

/// The spans of a line, one after the other.
pub open spec fn spans_text(spans: Seq<CodeSpanV>) -> Seq<char>
    decreases spans.len(),
{
    if spans.len() == 0 {
        Seq::empty()
    } else {
        spans_text(spans.drop_last()) + span_text(spans.last())
    }
}

/// How many bytes of code the spans of a line hold.
pub open spec fn spans_len(spans: Seq<CodeSpanV>) -> nat
    decreases spans.len(),
{
    if spans.len() == 0 {
        0
    } else {
        spans_len(spans.drop_last()) + byte_len(without_newlines(spans.last().text))
    }
}

/// A row of highlighted code, indented by four and padded to fill the box.
#[verifier::opaque]
pub open spec fn span_row(spans: Seq<CodeSpanV>, bw: nat) -> Seq<char> {
    code_bg_code() + "    "@ + spans_text(spans) + repeated(' ', padding(bw, 4 + spans_len(spans)))
        + RESET@ + "\n"@
}

/// Rows of highlighted code.
pub open spec fn span_rows(code: Seq<Seq<CodeSpanV>>, bw: nat) -> Seq<char>
    decreases code.len(),
{
    if code.len() == 0 {
        Seq::empty()
    } else {
        span_rows(code.drop_last(), bw) + span_row(code.last(), bw)
    }
}

/// A code block: its language, then a box with the highlighted spans or, where there are none,
/// with the plain lines.
pub open spec fn code_block_text(
    lang: Option<Seq<char>>,
    code: Seq<char>,
    cols: u16,
    spans: BlockSpansV,
) -> Seq<char> {
    let bw = box_width(cols);
    "\n"@ + language_text(lang) + box_row(bw) + code_rows(code, bw, spans) + box_row(bw) + "\n"@
}

/// The line above a code block that names its language.
#[verifier::opaque]
pub open spec fn language_text(lang: Option<Seq<char>>) -> Seq<char> {
    match lang {
        Some(lang) => DIM@ + ITALIC@ + lang + RESET@ + "\n"@,
        None => Seq::empty(),
    }
}

/// The rows of a code block between the empty ones.
pub open spec fn code_rows(
    code: Seq<char>,
    bw: nat,
    spans: BlockSpansV,
) -> Seq<char> {
    match spans {
        Some(lines) => span_rows(lines, bw),
        None => plain_rows(lines_of(trimmed_end(code)), bw),
    }
}

/// Appends an empty row of the box.
fn push_box_row(w: &mut String, bw: usize)
    ensures
        final(w)@ == old(w)@ + box_row(bw as nat),
{
    reveal(box_row);
    w.append(bg(35, 35, 42).as_str());
    push_repeated(w, ' ', bw);
    w.append(RESET);
    w.append("\n");
}

/// Appends rows of plain code.
fn push_plain_rows(w: &mut String, code: &Vec<String>, bw: usize)
    ensures
        final(w)@ == old(w)@ + plain_rows(code.deep_view(), bw as nat),
{
    let ghost all = code.deep_view();
    let ghost base = w@;
    let mut i: usize = 0;
    assert(all.take(0) =~= Seq::empty());
    while i < code.len()
        invariant
            i <= code@.len(),
            all == code.deep_view(),
            w@ == base + plain_rows(all.take(i as int), bw as nat),
        decreases code@.len() - i,
    {
        reveal(plain_row);
        let line = code[i].as_str();
        let used: usize = byte_length(line);
        let pad: usize = if bw >= 4 && bw - 4 >= used {
            bw - 4 - used
        } else {
            0
        };
        w.append(bg(35, 35, 42).as_str());
        w.append(fg(200, 200, 200).as_str());
        w.append("    ");
        w.append(line);
        push_repeated(w, ' ', pad);
        w.append(RESET);
        w.append("\n");
        assert(all.take(i + 1).drop_last() =~= all.take(i as int));
        i += 1;
    }
    assert(all.take(all.len() as int) =~= all);
}

/// Appends a row of highlighted code.
fn push_span_row(w: &mut String, spans: &Vec<CodeSpan>, bw: usize)
    requires
        bw < usize::MAX,
    ensures
        final(w)@ == old(w)@ + span_row(spans.deep_view(), bw as nat),
{
    reveal(span_row);
    let ghost all = spans.deep_view();
    w.append(bg(35, 35, 42).as_str());
    w.append("    ");
    let ghost base = w@;
    let mut len: usize = 4;
    let mut i: usize = 0;
    assert(all.take(0) =~= Seq::empty());
    while i < spans.len()
        invariant
            i <= spans@.len(),
            all == spans.deep_view(),
            w@ == base + spans_text(all.take(i as int)),
            len == 4 + spans_len(all.take(i as int)) || len == usize::MAX && usize::MAX < 4
                + spans_len(all.take(i as int)),
        decreases spans@.len() - i,
    {
        reveal(span_text);
        let span = &spans[i];
        let t = trim_newlines(span.text.as_str());
        len = len.saturating_add(byte_length(t.as_str()));
        match span.fg {
            Some(color) => {
                let (r, g, b) = color_to_rgb(color);
                w.append(fg(r, g, b).as_str());
            },
            None => {
                w.append(fg(200, 200, 200).as_str());
            },
        }
        w.append(t.as_str());
        assert(all.take(i + 1).drop_last() =~= all.take(i as int));
        assert(all.take(i + 1).last() == span.deep_view());
        i += 1;
    }
    assert(all.take(all.len() as int) =~= all);
    let pad: usize = if len <= bw {
        bw - len
    } else {
        0
    };
    push_repeated(w, ' ', pad);
    w.append(RESET);
    w.append("\n");
}

/// Appends the line that names the language.
fn push_language(w: &mut String, lang: Option<&str>)
    ensures
        final(w)@ == old(w)@ + language_text(lang.deep_view()),
{
    reveal(language_text);
    if let Some(lang) = lang {
        w.append(DIM);
        w.append(ITALIC);
        w.append(lang);
        w.append(RESET);
        w.append("\n");
    }
}

/// Appends rows of highlighted code.
fn push_span_rows(w: &mut String, code: &Vec<Vec<CodeSpan>>, bw: usize)
    requires
        bw < usize::MAX,
    ensures
        final(w)@ == old(w)@ + span_rows(code.deep_view(), bw as nat),
{
    let ghost all = code.deep_view();
    let ghost base = w@;
    let mut i: usize = 0;
    assert(all.take(0) =~= Seq::empty());
    while i < code.len()
        invariant
            i <= code@.len(),
            bw < usize::MAX,
            all == code.deep_view(),
            w@ == base + span_rows(all.take(i as int), bw as nat),
        decreases code@.len() - i,
    {
        push_span_row(w, &code[i], bw);
        assert(all.take(i + 1).drop_last() =~= all.take(i as int));
        i += 1;
    }
    assert(all.take(all.len() as int) =~= all);
}

/// Appends the rows of a code block between the empty ones.
fn push_code_rows(w: &mut String, code: &str, bw: usize, spans: &BlockSpans)
    requires
        bw < usize::MAX,
    ensures
        final(w)@ == old(w)@ + code_rows(code@, bw as nat, spans.deep_view()),
{
    match spans {
        Some(code_lines) => push_span_rows(w, code_lines, bw),
        None => {
            let trimmed = trim_end(code);
            push_plain_rows(w, &lines(trimmed.as_str()), bw);
        },
    }
}

/// Appends a code block for which the highlighter made the given spans, if any.
pub fn render_code_spans(
    w: &mut String,
    lang: Option<&str>,
    code: &str,
    cols: u16,
    spans: &BlockSpans,
)
    ensures
        final(w)@ == old(w)@ + code_block_text(lang.deep_view(), code@, cols, spans.deep_view()),
{
    let bw: usize = if cols >= 2 {
        (cols - 2) as usize
    } else {
        0
    };
    w.append("\n");
    push_language(w, lang);
    push_box_row(w, bw);
    push_code_rows(w, code, bw, spans);
    push_box_row(w, bw);
    w.append("\n");
}

/// Appends a code block, highlighted in the colors of the dark theme if the highlighter knows its
/// language and can take it.
pub fn render_code_block(w: &mut String, lang: Option<&str>, code: &str, cols: u16)
    ensures
        exists|spans: BlockSpansV|
            {
                &&& is_highlighting(lang.deep_view(), code@, true, spans)
                &&& final(w)@ == old(w)@ + #[trigger] code_block_text(
                    lang.deep_view(),
                    code@,
                    cols,
                    spans,
                )
            },
{
    let spans = highlight_block(lang, code, true);
    render_code_spans(w, lang, code, cols, &spans);
}

/// A PNG image as an iTerm2 inline image; nothing where there is no PNG.
#[verifier::opaque]
pub open spec fn png_text(png: Option<Seq<u8>>) -> Seq<char> {
    match png {
        Some(png) => "\x1b]1337;File=inline=1;width=auto;preserveAspectRatio=1:"@ + base64_of(png)
            + "\x07"@ + "\n"@,
        None => Seq::empty(),
    }
}

/// What stands in the place of a diagram that could not be rendered.
#[verifier::opaque]
pub open spec fn no_image_text() -> Seq<char> {
    dim_code() + "  (mermaid render failed)"@ + RESET@ + "\n"@
}

/// A diagram as an inline image.
pub open spec fn mermaid_text(image: Option<ImageV>) -> Seq<char> {
    match image {
        Some(image) => png_text(png_of(image.rgba, image.width, image.height)),
        None => no_image_text(),
    }
}

/// Appends a PNG image as an inline image.
pub fn render_png(w: &mut String, png: &Option<Vec<u8>>)
    ensures
        final(w)@ == old(w)@ + png_text(png.deep_view()),
{
    reveal(png_text);
    if let Some(png) = png {
        assert(png.deep_view() =~= png@);
        w.append("\x1b]1337;File=inline=1;width=auto;preserveAspectRatio=1:");
        w.append(encode_base64(png.as_slice()).as_str());
        w.append("\x07");
        w.append("\n");
    }
}

/// Appends a diagram.
pub fn render_mermaid(w: &mut String, image: &Option<RenderedImage>)
    requires
        image.deep_view() matches Some(image) ==> image.wf(),
    ensures
        final(w)@ == old(w)@ + mermaid_text(image.deep_view()),
{
    match image {
        Some(img) => {
            let png = rgba_to_png_pub(img.rgba.as_slice(), img.width, img.height);
            render_png(w, &png);
        },
        None => {
            reveal(no_image_text);
            w.append(fg(140, 140, 140).as_str());
            w.append("  (mermaid render failed)");
            w.append(RESET);
            w.append("\n");
        },
    }
}

/// A formula, on an indented line of its own between empty lines if it is displayed.
#[verifier::opaque]
pub open spec fn math_block_text(source: Seq<char>, display: bool) -> Seq<char> {
    let formula = math_code() + math_text(source) + RESET@;
    if display {
        "\n"@ + "    "@ + formula + "\n"@ + "\n"@
    } else {
        formula
    }
}

/// Appends a formula.
pub fn render_math(w: &mut String, source: &str, display: bool)
    ensures
        final(w)@ == old(w)@ + math_block_text(source@, display),
{
    reveal(math_block_text);
    let rendered = unicode_math(source);
    if display {
        w.append("\n");
        w.append("    ");
    }
    w.append(fg(190, 160, 250).as_str());
    w.append(rendered.as_str());
    w.append(RESET);
    if display {
        w.append("\n");
        w.append("\n");
    }
}

/// An item with its bullet.
#[verifier::opaque]
pub open spec fn item_text(item: Seq<char>) -> Seq<char> {
    "  "@ + dim_code() + "•"@ + RESET@ + "  "@ + item + "\n"@
}

/// A list: its items, one to a line.
pub open spec fn list_text(items: Seq<Seq<char>>) -> Seq<char>
    decreases items.len(),
{
    if items.len() == 0 {
        Seq::empty()
    } else {
        list_text(items.drop_last()) + item_text(items.last())
    }
}

/// Appends a list.
pub fn render_list(w: &mut String, items: &[String])
    ensures
        final(w)@ == old(w)@ + list_text(items.deep_view()),
{
    let dim = fg(140, 140, 140);
    let ghost all = items.deep_view();
    let ghost base = w@;
    let mut i: usize = 0;
    assert(all.take(0) =~= Seq::empty());
    while i < items.len()
        invariant
            i <= items@.len(),
            all == items.deep_view(),
            dim@ == dim_code(),
            w@ == base + list_text(all.take(i as int)),
        decreases items@.len() - i,
    {
        reveal(item_text);
        w.append("  ");
        w.append(dim.as_str());
        w.append("•");
        w.append(RESET);
        w.append("  ");
        w.append(items[i].as_str());
        w.append("\n");
        assert(all.take(i + 1).drop_last() =~= all.take(i as int));
        i += 1;
    }
    assert(all.take(all.len() as int) =~= all);
}

/// A quotation behind a bar.
#[verifier::opaque]
pub open spec fn blockquote_text(text: Seq<char>) -> Seq<char> {
    bg_code(20, 20, 20) + "  "@ + dim_code() + "│"@ + RESET@ + bg_code(20, 20, 20) + "  "@
        + ITALIC@ + DIM@ + text + RESET@ + "\n"@
}

/// Appends a quotation.
pub fn render_blockquote(w: &mut String, text: &str)
    ensures
        final(w)@ == old(w)@ + blockquote_text(text@),
{
    reveal(blockquote_text);
    let code_bg = bg(20, 20, 20);
    w.append(code_bg.as_str());
    w.append("  ");
    w.append(fg(140, 140, 140).as_str());
    w.append("│");
    w.append(RESET);
    w.append(code_bg.as_str());
    w.append("  ");
    w.append(ITALIC);
    w.append(DIM);
    w.append(text);
    w.append(RESET);
    w.append("\n");
}

/// A rule between empty lines.
#[verifier::opaque]
pub open spec fn hr_text(width: nat) -> Seq<char> {
    "\n"@ + dim_code() + repeated('─', width) + RESET@ + "\n"@ + "\n"@
}

/// Appends a rule.
pub fn render_hr(w: &mut String, width: usize)
    ensures
        final(w)@ == old(w)@ + hr_text(width as nat),
{
    reveal(hr_text);
    w.append("\n");
    w.append(fg(140, 140, 140).as_str());
    push_repeated(w, '─', width);
    w.append(RESET);
    w.append("\n");
    w.append("\n");
}

/// A table header in its column.
#[verifier::opaque]
pub open spec fn header_cell_text(header: Seq<char>, width: nat) -> Seq<char> {
    BOLD@ + blue_code() + padded(header, width) + RESET@
}

/// The first `n` headers of a table.
pub open spec fn header_row_text(
    headers: Seq<Seq<char>>,
    rows: Seq<Seq<Seq<char>>>,
    n: nat,
) -> Seq<char>
    decreases n,
{
    if n == 0 {
        Seq::empty()
    } else {
        header_row_text(headers, rows, (n - 1) as nat) + header_cell_text(
            headers[n - 1],
            column_width(headers, rows, n - 1),
        )
    }
}

/// The rule below a header.
#[verifier::opaque]
pub open spec fn rule_cell_text(width: nat) -> Seq<char> {
    dim_code() + repeated('─', width) + RESET@
}

/// The rules below the first `n` headers of a table.
pub open spec fn rule_row_text(
    headers: Seq<Seq<char>>,
    rows: Seq<Seq<Seq<char>>>,
    n: nat,
) -> Seq<char>
    decreases n,
{
    if n == 0 {
        Seq::empty()
    } else {
        rule_row_text(headers, rows, (n - 1) as nat) + rule_cell_text(
            column_width(headers, rows, n - 1),
        )
    }
}

/// The first `n` cells of a table row, each in its column.
pub open spec fn cells_text(
    headers: Seq<Seq<char>>,
    rows: Seq<Seq<Seq<char>>>,
    row: Seq<Seq<char>>,
    n: nat,
) -> Seq<char>
    decreases n,
{
    if n == 0 {
        Seq::empty()
    } else {
        cells_text(headers, rows, row, (n - 1) as nat) + padded(
            row[n - 1],
            column_width(headers, rows, n - 1),
        )
    }
}

/// The first `n` rows of a table, one to a line.
pub open spec fn rows_text(
    headers: Seq<Seq<char>>,
    rows: Seq<Seq<Seq<char>>>,
    n: nat,
) -> Seq<char>
    decreases n,
{
    if n == 0 {
        Seq::empty()
    } else {
        rows_text(headers, rows, (n - 1) as nat) + (cells_text(
            headers,
            rows,
            rows[n - 1],
            rows[n - 1].len(),
        ) + "\n"@)
    }
}

/// A table: its headers, the rules below them and its rows; nothing without headers.
pub open spec fn table_text(headers: Seq<Seq<char>>, rows: Seq<Seq<Seq<char>>>) -> Seq<char> {
    if headers.len() == 0 {
        Seq::empty()
    } else {
        header_row_text(headers, rows, headers.len()) + "\n"@ + rule_row_text(
            headers,
            rows,
            headers.len(),
        ) + "\n"@ + rows_text(headers, rows, rows.len())
    }
}

/// Appends the headers of a table.
fn push_header_row(w: &mut String, headers: &[String], rows: &[Vec<String>], sizes: &Vec<usize>)
    requires
        sizes@.len() == headers@.len(),
        forall|i: int|
            0 <= i < sizes@.len() ==> #[trigger] sizes@[i] == column_size(
                headers.deep_view(),
                rows.deep_view(),
                i,
            ),
    ensures
        final(w)@ == old(w)@ + header_row_text(
            headers.deep_view(),
            rows.deep_view(),
            headers@.len(),
        ),
{
    let blue = fg(130, 170, 255);
    let ghost base = w@;
    let ghost names = headers.deep_view();
    let ghost all = rows.deep_view();
    let mut i: usize = 0;
    while i < headers.len()
        invariant
            i <= headers@.len(),
            sizes@.len() == headers@.len(),
            names == headers.deep_view(),
            all == rows.deep_view(),
            blue@ == blue_code(),
            forall|k: int|
                0 <= k < sizes@.len() ==> #[trigger] sizes@[k] == column_size(names, all, k),
            w@ == base + header_row_text(names, all, i as nat),
        decreases headers@.len() - i,
    {
        reveal(header_cell_text);
        w.append(BOLD);
        w.append(blue.as_str());
        push_padded(w, headers[i].as_str(), sizes[i], 2);
        w.append(RESET);
        i += 1;
    }
}

/// Appends the rules below the headers of a table.
fn push_rule_row(w: &mut String, headers: &[String], rows: &[Vec<String>], sizes: &Vec<usize>)
    requires
        sizes@.len() == headers@.len(),
        forall|i: int|
            0 <= i < sizes@.len() ==> #[trigger] sizes@[i] == column_size(
                headers.deep_view(),
                rows.deep_view(),
                i,
            ),
    ensures
        final(w)@ == old(w)@ + rule_row_text(
            headers.deep_view(),
            rows.deep_view(),
            headers@.len(),
        ),
{
    let dim = fg(140, 140, 140);
    let ghost base = w@;
    let ghost names = headers.deep_view();
    let ghost all = rows.deep_view();
    let mut i: usize = 0;
    while i < sizes.len()
        invariant
            i <= sizes@.len(),
            sizes@.len() == names.len(),
            names == headers.deep_view(),
            all == rows.deep_view(),
            dim@ == dim_code(),
            forall|k: int|
                0 <= k < sizes@.len() ==> #[trigger] sizes@[k] == column_size(names, all, k),
            w@ == base + rule_row_text(names, all, i as nat),
        decreases sizes@.len() - i,
    {
        reveal(rule_cell_text);
        w.append(dim.as_str());
        push_repeated(w, '─', sizes[i]);
        push_repeated(w, '─', 2);
        assert(repeated('─', sizes[i as int] as nat) + repeated('─', 2) =~= repeated(
            '─',
            column_width(names, all, i as int),
        ));
        w.append(RESET);
        i += 1;
    }
}

/// Appends the cells of a table row.
fn push_cells(
    w: &mut String,
    headers: &[String],
    rows: &[Vec<String>],
    sizes: &Vec<usize>,
    row: &Vec<String>,
)
    requires
        sizes@.len() == headers@.len(),
        forall|i: int|
            0 <= i < sizes@.len() ==> #[trigger] sizes@[i] == column_size(
                headers.deep_view(),
                rows.deep_view(),
                i,
            ),
    ensures
        final(w)@ == old(w)@ + cells_text(
            headers.deep_view(),
            rows.deep_view(),
            row.deep_view(),
            row@.len(),
        ),
{
    let ghost base = w@;
    let ghost names = headers.deep_view();
    let ghost all = rows.deep_view();
    let mut i: usize = 0;
    while i < row.len()
        invariant
            i <= row@.len(),
            sizes@.len() == names.len(),
            names == headers.deep_view(),
            all == rows.deep_view(),
            forall|k: int|
                0 <= k < sizes@.len() ==> #[trigger] sizes@[k] == column_size(names, all, k),
            w@ == base + cells_text(names, all, row.deep_view(), i as nat),
        decreases row@.len() - i,
    {
        if i < sizes.len() {
            push_padded(w, row[i].as_str(), sizes[i], 2);
        } else {
            push_padded(w, row[i].as_str(), 10, 0);
        }
        i += 1;
    }
}

/// Appends a table.
pub fn render_table(w: &mut String, headers: &[String], rows: &[Vec<String>])
    ensures
        final(w)@ == old(w)@ + table_text(headers.deep_view(), rows.deep_view()),
{
    if headers.len() == 0 {
        return ;
    }
    let sizes = column_sizes(headers, rows);
    push_header_row(w, headers, rows, &sizes);
    w.append("\n");
    push_rule_row(w, headers, rows, &sizes);
    w.append("\n");
    let ghost base = w@;
    let ghost names = headers.deep_view();
    let ghost all = rows.deep_view();
    let mut r: usize = 0;
    while r < rows.len()
        invariant
            r <= rows@.len(),
            sizes@.len() == headers@.len(),
            names == headers.deep_view(),
            all == rows.deep_view(),
            forall|k: int|
                0 <= k < sizes@.len() ==> #[trigger] sizes@[k] == column_size(names, all, k),
            w@ == base + rows_text(names, all, r as nat),
        decreases rows@.len() - r,
    {
        push_cells(w, headers, rows, &sizes, &rows[r]);
        w.append("\n");
        assert(all[r as int] == rows@[r as int].deep_view());
        r += 1;
    }
}

/// A block in a given width, in a terminal of the given number of columns; the spans are those of a
/// code block.
pub open spec fn block_text(
    block: BlockV,
    spans: BlockSpansV,
    width: nat,
    cols: u16,
) -> Seq<char> {
    match block {
        BlockV::Heading { level, text } => heading_text(level, text, width),
        BlockV::Paragraph { inlines } => inlines_text(inlines) + "\n"@,
        BlockV::CodeBlock { lang, code } => code_block_text(lang, code, cols, spans),
        BlockV::Mermaid { source: _, image } => mermaid_text(image),
        BlockV::Math { source, display } => math_block_text(source, display),
        BlockV::List { items } => list_text(items),
        BlockV::BlockQuote { text } => blockquote_text(text),
        BlockV::ThematicBreak => hr_text(width),
        BlockV::Table { headers, rows } => table_text(headers, rows),
    }
}

/// Appends a block; the spans are those of a code block.
pub fn render_block(w: &mut String, block: &Block, spans: &BlockSpans, width: usize, cols: u16)
    requires
        block.deep_view().wf(),
        block.deep_view() matches BlockV::Heading { level: 2, text: _ } ==> width * 2 <= usize::MAX,
    ensures
        final(w)@ == old(w)@ + block_text(
            block.deep_view(),
            spans.deep_view(),
            width as nat,
            cols,
        ),
{
    match block {
        Block::Heading { level, text } => render_heading(w, *level, text.as_str(), width),
        Block::Paragraph { inlines } => render_paragraph(w, inlines.as_slice()),
        Block::CodeBlock { lang, code } => {
            let lang: Option<&str> = match lang {
                Some(lang) => Some(lang.as_str()),
                None => None,
            };
            render_code_spans(w, lang, code.as_str(), cols, spans)
        },
        Block::Mermaid { source: _, image } => render_mermaid(w, image),
        Block::Math { source, display } => render_math(w, source.as_str(), *display),
        Block::List { items } => render_list(w, items.as_slice()),
        Block::BlockQuote { text } => render_blockquote(w, text.as_str()),
        Block::ThematicBreak => render_hr(w, width),
        Block::Table { headers, rows } => render_table(w, headers.as_slice(), rows.as_slice()),
    }
}

/// A document in a terminal of the given number of columns, four of which stay free: its blocks,
/// each with its spans, with an empty line between each two.
pub open spec fn document_text(
    blocks: Seq<BlockV>,
    spans: Seq<BlockSpansV>,
    cols: u16,
) -> Seq<char>
    decreases blocks.len(),
{
    let width = padding(cols as nat, 4);
    if blocks.len() == 0 {
        Seq::empty()
    } else if blocks.len() == 1 {
        block_text(blocks[0], spans[0], width, cols)
    } else {
        document_text(blocks.drop_last(), spans.drop_last(), cols) + "\n"@ + block_text(
            blocks.last(),
            spans.last(),
            width,
            cols,
        )
    }
}

/// A document of one more block is the document, an empty line unless it was empty, and the block.
proof fn lemma_document_of_one_more(
    blocks: Seq<BlockV>,
    spans: Seq<BlockSpansV>,
    i: int,
    cols: u16,
)
    requires
        0 <= i < blocks.len(),
        spans.len() == blocks.len(),
    ensures
        ({
            let before = document_text(blocks.take(i), spans.take(i), cols);
            let gap = if i > 0 {
                "\n"@
            } else {
                Seq::empty()
            };
            document_text(blocks.take(i + 1), spans.take(i + 1), cols) == before + gap + block_text(
                blocks[i],
                spans[i],
                padding(cols as nat, 4),
                cols,
            )
        }),
{
    let some = blocks.take(i + 1);
    let theirs = spans.take(i + 1);
    assert(some.drop_last() =~= blocks.take(i));
    assert(theirs.drop_last() =~= spans.take(i));
    assert(some.last() == blocks[i] && theirs.last() == spans[i]);
    if i == 0 {
        let text = block_text(blocks[0], spans[0], padding(cols as nat, 4), cols);
        assert(Seq::<char>::empty() + Seq::<char>::empty() + text =~= text);
    }
}

/// Renders the blocks of a document, each with its spans.
pub fn render_document(blocks: &[Block], spans: &[BlockSpans], cols: u16) -> (text: String)
    requires
        blocks_wf(blocks.deep_view()),
        spans@.len() == blocks@.len(),
    ensures
        text@ == document_text(blocks.deep_view(), spans.deep_view(), cols),
{
    let width: usize = if cols >= 4 {
        (cols - 4) as usize
    } else {
        0
    };
    let ghost all = blocks.deep_view();
    let ghost theirs = spans.deep_view();
    let mut text = String::new();
    let mut i: usize = 0;
    assert(text@ =~= document_text(all.take(0), theirs.take(0), cols));
    while i < blocks.len()
        invariant
            i <= blocks@.len(),
            spans@.len() == blocks@.len(),
            width == padding(cols as nat, 4),
            width <= 65535,
            all == blocks.deep_view(),
            theirs == spans.deep_view(),
            blocks_wf(all),
            text@ == document_text(all.take(i as int), theirs.take(i as int), cols),
        decreases blocks@.len() - i,
    {
        assert(all[i as int].wf());
        proof {
            lemma_document_of_one_more(all, theirs, i as int, cols);
        }
        if i > 0 {
            text.append("\n");
        }
        render_block(&mut text, &blocks[i], &spans[i], width, cols);
        i += 1;
    }
    assert(all.take(all.len() as int) =~= all);
    assert(theirs.take(theirs.len() as int) =~= theirs);
    text
}

/// Renders the blocks of a document, with code in the colors of the dark theme.
pub fn render_highlighted(blocks: &[Block], cols: u16) -> (text: String)
    requires
        blocks_wf(blocks.deep_view()),
    ensures
        exists|spans: Seq<BlockSpansV>|
            {
                &&& is_document_highlighting(blocks.deep_view(), true, spans)
                &&& text@ == #[trigger] document_text(blocks.deep_view(), spans, cols)
            },
{
    let spans = highlight_blocks(blocks, true);
    render_document(blocks, spans.as_slice(), cols)
}

/// [`render_block`] writes what the function for the block's kind writes, called with the block's
/// fields: [`render_heading`], [`render_paragraph`], [`render_code_spans`], [`render_mermaid`],
/// [`render_math`], [`render_list`], [`render_blockquote`], [`render_hr`] or [`render_table`]. For
/// a code block that was highlighted in the dark theme that is what [`render_code_block`] may
/// write. The source of a diagram has no part in it, nor have spans but for a code block.
pub proof fn law_block_is_written_by_kind(
    block: BlockV,
    spans: BlockSpansV,
    width: nat,
    cols: u16,
)
    ensures
        ({
            let text = block_text(block, spans, width, cols);
            match block {
                BlockV::Heading { level, text: title } => text == heading_text(level, title, width),
                BlockV::Paragraph { inlines } => text == inlines_text(inlines) + "\n"@,
                BlockV::CodeBlock { lang, code } => {
                    &&& text == code_block_text(lang, code, cols, spans)
                    &&& is_block_highlighting(block, true, spans) <==> is_highlighting(
                        lang,
                        code,
                        true,
                        spans,
                    )
                },
                BlockV::Mermaid { source: _, image } => {
                    &&& text == mermaid_text(image)
                    &&& forall|other: Seq<char>|
                        text == #[trigger] block_text(
                            BlockV::Mermaid { source: other, image },
                            spans,
                            width,
                            cols,
                        )
                },
                BlockV::Math { source, display } => text == math_block_text(source, display),
                BlockV::List { items } => text == list_text(items),
                BlockV::BlockQuote { text: quoted } => text == blockquote_text(quoted),
                BlockV::ThematicBreak => text == hr_text(width),
                BlockV::Table { headers, rows } => text == table_text(headers, rows),
            }
        }),
        !(block is CodeBlock) ==> block_text(block, spans, width, cols) == block_text(
            block,
            None,
            width,
            cols,
        ),
{
}

/// A document of two parts is the first part, an empty line and the second part.
pub proof fn law_document_of_two_parts(
    a: Seq<BlockV>,
    x: Seq<BlockSpansV>,
    b: Seq<BlockV>,
    y: Seq<BlockSpansV>,
    cols: u16,
)
    requires
        a.len() > 0,
        b.len() > 0,
        x.len() == a.len(),
        y.len() == b.len(),
    ensures
        document_text(a + b, x + y, cols) == document_text(a, x, cols) + "\n"@ + document_text(
            b,
            y,
            cols,
        ),
    decreases b.len(),
{
    let all = a + b;
    let spans = x + y;
    assert(all.drop_last() =~= a + b.drop_last());
    assert(spans.drop_last() =~= x + y.drop_last());
    if b.len() == 1 {
        assert(all.drop_last() =~= a);
        assert(spans.drop_last() =~= x);
    } else {
        law_document_of_two_parts(a, x, b.drop_last(), y.drop_last(), cols);
    }
}

/// How many characters of code the spans of a line hold.
pub open spec fn spans_chars(spans: Seq<CodeSpanV>) -> nat
    decreases spans.len(),
{
    if spans.len() == 0 {
        0
    } else {
        spans_chars(spans.drop_last()) + without_newlines(spans.last().text).len()
    }
}

/// A row of plain ASCII code that fits the box fills it: its indentation, its characters and the
/// spaces after them are as many as the box is wide.
pub proof fn law_plain_row_fills_the_box(line: Seq<char>, bw: nat)
    requires
        is_ascii_chars(line),
        4 + line.len() <= bw,
    ensures
        4 + line.len() + padding(bw, 4 + byte_len(line)) == bw,
{
    is_ascii_chars_encode_utf8(line);
}

/// The spans of ASCII code hold as many bytes as characters.
proof fn lemma_ascii_spans(spans: Seq<CodeSpanV>)
    requires
        forall|i: int|
            0 <= i < spans.len() ==> is_ascii_chars(
                without_newlines((#[trigger] spans[i]).text),
            ),
    ensures
        spans_len(spans) == spans_chars(spans),
    decreases spans.len(),
{
    if spans.len() > 0 {
        let rest = spans.drop_last();
        assert forall|i: int| 0 <= i < rest.len() implies is_ascii_chars(
            without_newlines((#[trigger] rest[i]).text),
        ) by {
            assert(rest[i] == spans[i]);
        }
        lemma_ascii_spans(rest);
        assert(is_ascii_chars(without_newlines(spans[spans.len() - 1].text)));
        is_ascii_chars_encode_utf8(without_newlines(spans.last().text));
    }
}

/// A row of highlighted ASCII code that fits the box fills it.
pub proof fn law_span_row_fills_the_box(spans: Seq<CodeSpanV>, bw: nat)
    requires
        forall|i: int|
            0 <= i < spans.len() ==> is_ascii_chars(
                without_newlines((#[trigger] spans[i]).text),
            ),
        4 + spans_chars(spans) <= bw,
    ensures
        4 + spans_chars(spans) + padding(bw, 4 + spans_len(spans)) == bw,
{
    lemma_ascii_spans(spans);
}

/// A document of one block is the block in the width of the terminal but for four columns, and one
/// without blocks is empty.
pub proof fn law_document_of_one_block(block: BlockV, spans: BlockSpansV, cols: u16)
    ensures
        document_text(seq![block], seq![spans], cols) == block_text(
            block,
            spans,
            if cols >= 4 {
                (cols - 4) as nat
            } else {
                0
            },
            cols,
        ),
        document_text(Seq::empty(), Seq::empty(), cols) == Seq::<char>::empty(),
{
}

} // verus!
