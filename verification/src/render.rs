//! Interactive mode: a document as the rows that a terminal user interface draws.
use crate::block::{blocks_wf, Block, BlockV, ImageV, Inline, InlineV, RenderedImage};
use crate::highlight::{
    highlight_block, highlight_blocks, holds_code, is_document_highlighting, is_highlighting,
    line_text, BlockSpans, BlockSpansV, CodeSpan, CodeSpanV,
};
use crate::markdown::{bare_text, bare_texts, blocks_of, parse};
use crate::math::{math_text, unicode_math};
use crate::parser::document;
use crate::table::{column_size, column_sizes, column_width, padded, push_padded};
use crate::text::{
    lines, lines_of, owned, padding, push_repeated, repeated, split_lines, trim_end, trimmed_end,
};
use vstd::prelude::*;

verus! {

// Colors, as entries of the 256-color palette.

pub const DIM: u8 = 245;

pub const ACCENT: u8 = 111;

pub const H2_CLR: u8 = 114;

pub const H3_CLR: u8 = 222;

pub const CODE_CLR: u8 = 210;

pub const MATH_CLR: u8 = 183;

pub const LINK_CLR: u8 = 111;

/// The background of code and quotations: barely lighter than pure black.
pub const SHADE: u8 = 234;

/// One step of styling a text; a color is an entry of the 256-color palette.
#[derive(Debug, Clone, Copy, PartialEq, Eq, Structural)]
pub enum Attr {
    Bold,
    Dim,
    Italic,
    Underline,
    Strikethrough,
    Fg(u8),
    Bg(u8),
    Center,
}

impl DeepView for Attr {
    type V = Attr;

    open spec fn deep_view(&self) -> Attr {
        *self
    }
}

/// A piece of a row: a text, a hyperlink or a span of highlighted code.
#[derive(Debug)]
pub enum Piece {
    Text { text: String, attrs: Vec<Attr> },
    Link { text: String, url: String, attrs: Vec<Attr> },
    Code(CodeSpan),
}

/// The mathematical value of a [`Piece`].
pub enum PieceV {
    Text { text: Seq<char>, attrs: Seq<Attr> },
    Link { text: Seq<char>, url: Seq<char>, attrs: Seq<Attr> },
    Code(CodeSpanV),
}

impl DeepView for Piece {
    type V = PieceV;

    open spec fn deep_view(&self) -> PieceV {
        match *self {
            Piece::Text { text, attrs } => PieceV::Text {
                text: text@,
                attrs: attrs.deep_view(),
            },
            Piece::Link { text, url, attrs } => PieceV::Link {
                text: text@,
                url: url@,
                attrs: attrs.deep_view(),
            },
            Piece::Code(span) => PieceV::Code(span.deep_view()),
        }
    }
}

/// A row: a single piece, several pieces on one line, or several pieces that wrap.
#[derive(Debug)]
pub enum Row {
    Single(Piece),
    Line(Vec<Piece>),
    Wrapped(Vec<Piece>),
}

/// The mathematical value of a [`Row`].
pub enum RowV {
    Single(PieceV),
    Line(Seq<PieceV>),
    Wrapped(Seq<PieceV>),
}

impl DeepView for Row {
    type V = RowV;

    open spec fn deep_view(&self) -> RowV {
        match *self {
            Row::Single(piece) => RowV::Single(piece.deep_view()),
            Row::Line(pieces) => RowV::Line(pieces.deep_view()),
            Row::Wrapped(pieces) => RowV::Wrapped(pieces.deep_view()),
        }
    }
}

/// What is drawn below each other: a row, a shaded panel of rows, which may have bars in a color
/// on its left and right, or the image of the block with the given index.
#[derive(Debug)]
pub enum Element {
    Row(Row),
    Panel { bg: u8, bars: Option<u8>, px: u32, py: u32, rows: Vec<Row> },
    Diagram(usize),
}

/// The mathematical value of an [`Element`].
pub enum ElementV {
    Row(RowV),
    Panel { bg: u8, bars: Option<u8>, px: u32, py: u32, rows: Seq<RowV> },
    Diagram(usize),
}

impl DeepView for Element {
    type V = ElementV;

    open spec fn deep_view(&self) -> ElementV {
        match *self {
            Element::Row(row) => ElementV::Row(row.deep_view()),
            Element::Panel { bg, bars, px, py, rows } => ElementV::Panel {
                bg,
                bars,
                px,
                py,
                rows: rows.deep_view(),
            },
            Element::Diagram(index) => ElementV::Diagram(index),
        }
    }
}

/// A styled text.
pub open spec fn styled(text: Seq<char>, attrs: Seq<Attr>) -> PieceV {
    PieceV::Text { text, attrs }
}

/// A row with one styled text.
pub open spec fn text_row(text: Seq<char>, attrs: Seq<Attr>) -> ElementV {
    ElementV::Row(RowV::Single(styled(text, attrs)))
}

/// An empty row.
pub open spec fn empty_row() -> ElementV {
    text_row(Seq::empty(), Seq::empty())
}

/// A styled text.
fn make_text(text: String, attrs: Vec<Attr>) -> (piece: Piece)
    ensures
        piece.deep_view() == styled(text@, attrs@),
{
    assert(attrs.deep_view() =~= attrs@);
    Piece::Text { text, attrs }
}

/// Appends a row with one styled text.
fn push_text_row(out: &mut Vec<Element>, text: String, attrs: Vec<Attr>)
    ensures
        final(out).deep_view() == old(out).deep_view().push(text_row(text@, attrs@)),
{
    let ghost before = out.deep_view();
    out.push(Element::Row(Row::Single(make_text(text, attrs))));
    assert(out.deep_view() =~= before.push(text_row(text@, attrs@)));
}

/// Appends an empty row.
fn push_empty_row(out: &mut Vec<Element>)
    ensures
        final(out).deep_view() == old(out).deep_view().push(empty_row()),
{
    push_text_row(out, String::new(), Vec::new());
}

/// Appends a line of pieces.
fn push_line(out: &mut Vec<Element>, pieces: Vec<Piece>)
    ensures
        final(out).deep_view() == old(out).deep_view().push(
            ElementV::Row(RowV::Line(pieces.deep_view())),
        ),
{
    let ghost before = out.deep_view();
    out.push(Element::Row(Row::Line(pieces)));
    assert(out.deep_view() =~= before.push(ElementV::Row(RowV::Line(pieces.deep_view()))));
}

/// Get usable content width (terminal width minus padding).
pub fn content_width(cols: u16) -> (width: usize)
    ensures
        width == padding(cols as nat, 10),
{
    if cols >= 10 {
        (cols - 10) as usize
    } else {
        0
    }
}

/// How a heading's text is styled.
pub open spec fn heading_attrs(level: u8) -> Seq<Attr> {
    if level == 1 {
        seq![Attr::Bold, Attr::Fg(ACCENT)]
    } else if level == 2 {
        seq![Attr::Bold, Attr::Fg(H2_CLR)]
    } else if level == 3 {
        seq![Attr::Bold, Attr::Fg(H3_CLR)]
    } else if level == 4 {
        seq![Attr::Bold]
    } else {
        seq![Attr::Dim]
    }
}

/// A heading: its signs and its text on a line, with a rule below it at the first two levels and
/// an empty row above it at the first three.
pub open spec fn heading_elements(level: u8, text: Seq<char>, width: nat) -> Seq<ElementV> {
    let title = ElementV::Row(
        RowV::Line(
            seq![
                styled(repeated('#', level as nat) + " "@, seq![Attr::Fg(DIM)]),
                styled(text, heading_attrs(level)),
            ],
        ),
    );
    let rule = |c: char, n: nat| text_row(repeated(c, n), seq![Attr::Fg(DIM)]);
    if level == 1 {
        seq![empty_row(), title, rule('━', width), empty_row()]
    } else if level == 2 {
        seq![empty_row(), title, rule('─', width * 2 / 3)]
    } else if level == 3 {
        seq![empty_row(), title]
    } else {
        seq![title]
    }
}

/// Appends a rule.
fn push_rule(out: &mut Vec<Element>, c: char, n: usize)
    ensures
        final(out).deep_view() == old(out).deep_view().push(
            text_row(repeated(c, n as nat), seq![Attr::Fg(DIM)]),
        ),
{
    let mut rule = String::new();
    push_repeated(&mut rule, c, n);
    assert(rule@ =~= repeated(c, n as nat));
    let attrs: Vec<Attr> = vec![Attr::Fg(DIM)];
    assert(attrs@ =~= seq![Attr::Fg(DIM)]);
    push_text_row(out, rule, attrs);
}

/// Appends a heading.
pub fn render_heading(out: &mut Vec<Element>, level: u8, text: &str, width: usize)
    requires
        level == 2 ==> width * 2 <= usize::MAX,
    ensures
        final(out).deep_view() == old(out).deep_view() + heading_elements(
            level,
            text@,
            width as nat,
        ),
{
    let mut signs = String::new();
    push_repeated(&mut signs, '#', level as usize);
    signs.append(" ");
    assert(signs@ =~= repeated('#', level as nat) + " "@);
    let attrs: Vec<Attr> = if level == 1 {
        vec![Attr::Bold, Attr::Fg(ACCENT)]
    } else if level == 2 {
        vec![Attr::Bold, Attr::Fg(H2_CLR)]
    } else if level == 3 {
        vec![Attr::Bold, Attr::Fg(H3_CLR)]
    } else if level == 4 {
        vec![Attr::Bold]
    } else {
        vec![Attr::Dim]
    };
    assert(attrs@ =~= heading_attrs(level));
    let dim: Vec<Attr> = vec![Attr::Fg(DIM)];
    assert(dim@ =~= seq![Attr::Fg(DIM)]);
    let title: Vec<Piece> = vec![make_text(signs, dim), make_text(owned(text), attrs)];
    assert(title.deep_view() =~= seq![
        styled(repeated('#', level as nat) + " "@, seq![Attr::Fg(DIM)]),
        styled(text@, heading_attrs(level)),
    ]);
    if level == 1 || level == 2 || level == 3 {
        push_empty_row(out);
    }
    push_line(out, title);
    if level == 1 {
        push_rule(out, '━', width);
        push_empty_row(out);
    } else if level == 2 {
        push_rule(out, '─', width * 2 / 3);
    }
    assert(out.deep_view() =~= old(out).deep_view() + heading_elements(
        level,
        text@,
        width as nat,
    ));
}

/// A run of text in its style.
pub open spec fn inline_piece(inline: InlineV) -> PieceV {
    match inline {
        InlineV::Text(t) => styled(t, Seq::empty()),
        InlineV::Bold(t) => styled(t, seq![Attr::Bold]),
        InlineV::Italic(t) => styled(t, seq![Attr::Italic]),
        InlineV::Strikethrough(t) => styled(t, seq![Attr::Strikethrough, Attr::Dim]),
        InlineV::Code(t) => styled(" "@ + t + " "@, seq![Attr::Fg(CODE_CLR), Attr::Bg(SHADE)]),
        InlineV::Link { text, url } => PieceV::Link {
            text,
            url,
            attrs: seq![Attr::Fg(LINK_CLR), Attr::Underline],
        },
        InlineV::Math { source } => styled(math_text(source), seq![Attr::Fg(MATH_CLR)]),
        InlineV::SoftBreak => styled(" "@, Seq::empty()),
        InlineV::LineBreak => styled(" "@, Seq::empty()),
    }
}

/// A paragraph: its runs on a line that wraps; nothing without runs.
pub open spec fn paragraph_elements(inlines: Seq<InlineV>) -> Seq<ElementV> {
    if inlines.len() == 0 {
        Seq::empty()
    } else {
        let pieces = inlines.map_values(|inline: InlineV| inline_piece(inline));
        seq![ElementV::Row(RowV::Wrapped(pieces))]
    }
}

/// A run of text in its style.
fn make_inline(inline: &Inline) -> (piece: Piece)
    ensures
        piece.deep_view() == inline_piece(inline.deep_view()),
{
    let mut text = String::new();
    let mut attrs: Vec<Attr> = Vec::new();
    match inline {
        Inline::Text(t) => {
            text = owned(t.as_str());
        },
        Inline::Bold(t) => {
            text = owned(t.as_str());
            attrs.push(Attr::Bold);
        },
        Inline::Italic(t) => {
            text = owned(t.as_str());
            attrs.push(Attr::Italic);
        },
        Inline::Strikethrough(t) => {
            text = owned(t.as_str());
            attrs.push(Attr::Strikethrough);
            attrs.push(Attr::Dim);
        },
        Inline::Code(t) => {
            text.append(" ");
            text.append(t.as_str());
            text.append(" ");
            assert(text@ =~= " "@ + t@ + " "@);
            attrs.push(Attr::Fg(CODE_CLR));
            attrs.push(Attr::Bg(SHADE));
        },
        Inline::Link { text: shown, url } => {
            attrs.push(Attr::Fg(LINK_CLR));
            attrs.push(Attr::Underline);
            assert(attrs.deep_view() =~= seq![Attr::Fg(LINK_CLR), Attr::Underline]);
            return Piece::Link { text: owned(shown.as_str()), url: owned(url.as_str()), attrs };
        },
        Inline::Math { source } => {
            text = unicode_math(source.as_str());
            attrs.push(Attr::Fg(MATH_CLR));
        },
        Inline::SoftBreak => {
            text = owned(" ");
        },
        Inline::LineBreak => {
            text = owned(" ");
        },
    }
    assert(attrs@ =~= inline_piece(inline.deep_view())->Text_attrs);
    make_text(text, attrs)
}

/// Appends a paragraph.
pub fn render_paragraph(out: &mut Vec<Element>, inlines: &[Inline])
    ensures
        final(out).deep_view() == old(out).deep_view() + paragraph_elements(inlines.deep_view()),
{
    let ghost before = out.deep_view();
    if inlines.len() == 0 {
        assert(out.deep_view() =~= before + paragraph_elements(inlines.deep_view()));
        return ;
    }
    let ghost expected = inlines.deep_view().map_values(|inline: InlineV| inline_piece(inline));
    let mut pieces: Vec<Piece> = Vec::new();
    let mut i: usize = 0;
    while i < inlines.len()
        invariant
            i <= inlines@.len(),
            expected == inlines.deep_view().map_values(|inline: InlineV| inline_piece(inline)),
            pieces.deep_view() =~= expected.take(i as int),
        decreases inlines@.len() - i,
    {
        let ghost done = pieces.deep_view();
        pieces.push(make_inline(&inlines[i]));
        assert(pieces.deep_view() =~= done.push(expected[i as int]));
        i += 1;
    }
    assert(pieces.deep_view() =~= expected);
    out.push(Element::Row(Row::Wrapped(pieces)));
    assert(out.deep_view() =~= before + paragraph_elements(inlines.deep_view()));
}

/// A line of highlighted code; an empty row where it has no spans.
pub open spec fn span_line(spans: Seq<CodeSpanV>) -> RowV {
    if spans.len() == 0 {
        RowV::Single(styled(Seq::empty(), Seq::empty()))
    } else {
        RowV::Line(spans.map_values(|span: CodeSpanV| PieceV::Code(span)))
    }
}

/// The rows of a code block: highlighted spans or, where there are none, plain lines.
pub open spec fn code_rows(code: Seq<char>, spans: BlockSpansV) -> Seq<RowV> {
    match spans {
        Some(spans) => spans.map_values(|line: Seq<CodeSpanV>| span_line(line)),
        None => lines_of(trimmed_end(code)).map_values(
            |line: Seq<char>| RowV::Single(styled(line, seq![Attr::Fg(CODE_CLR)])),
        ),
    }
}

/// A code block: its language, then a panel of code, between empty rows.
pub open spec fn code_block_elements(
    lang: Option<Seq<char>>,
    code: Seq<char>,
    spans: BlockSpansV,
) -> Seq<ElementV> {
    let panel = ElementV::Panel {
        bg: SHADE,
        bars: None,
        px: 4,
        py: 1,
        rows: code_rows(code, spans),
    };
    match lang {
        Some(lang) => seq![
            empty_row(),
            text_row(lang, seq![Attr::Dim, Attr::Italic]),
            panel,
            empty_row(),
        ],
        None => seq![empty_row(), panel, empty_row()],
    }
}

/// A line of highlighted code.
fn make_span_line(spans: &Vec<CodeSpan>) -> (row: Row)
    ensures
        row.deep_view() == span_line(spans.deep_view()),
{
    let ghost expected = spans.deep_view().map_values(|span: CodeSpanV| PieceV::Code(span));
    if spans.len() == 0 {
        let piece = make_text(String::new(), Vec::new());
        return Row::Single(piece);
    }
    let mut pieces: Vec<Piece> = Vec::new();
    let mut i: usize = 0;
    while i < spans.len()
        invariant
            i <= spans@.len(),
            expected == spans.deep_view().map_values(|span: CodeSpanV| PieceV::Code(span)),
            pieces.deep_view() =~= expected.take(i as int),
        decreases spans@.len() - i,
    {
        let ghost done = pieces.deep_view();
        pieces.push(Piece::Code(spans[i].clone()));
        assert(pieces.deep_view() =~= done.push(expected[i as int]));
        i += 1;
    }
    assert(pieces.deep_view() =~= expected);
    Row::Line(pieces)
}

/// The rows of a code block.
fn make_code_rows(code: &str, spans: &BlockSpans) -> (rows: Vec<Row>)
    ensures
        rows.deep_view() == code_rows(code@, spans.deep_view()),
{
    let ghost expected = code_rows(code@, spans.deep_view());
    let mut rows: Vec<Row> = Vec::new();
    match spans {
        Some(code_lines) => {
            let mut i: usize = 0;
            while i < code_lines.len()
                invariant
                    i <= code_lines@.len(),
                    expected == code_lines.deep_view().map_values(
                        |line: Seq<CodeSpanV>| span_line(line),
                    ),
                    rows.deep_view() =~= expected.take(i as int),
                decreases code_lines@.len() - i,
            {
                let ghost done = rows.deep_view();
                rows.push(make_span_line(&code_lines[i]));
                assert(rows.deep_view() =~= done.push(expected[i as int]));
                i += 1;
            }
        },
        None => {
            let trimmed = trim_end(code);
            let code_lines = lines(trimmed.as_str());
            for line in it: code_lines
                invariant
                    it.seq() == code_lines@,
                    expected == code_lines.deep_view().map_values(
                        |line: Seq<char>| RowV::Single(styled(line, seq![Attr::Fg(CODE_CLR)])),
                    ),
                    rows.deep_view() =~= expected.take(it.index() as int),
            {
                let ghost done = rows.deep_view();
                let ghost next = expected[it.index() as int];
                let attrs: Vec<Attr> = vec![Attr::Fg(CODE_CLR)];
                assert(attrs@ =~= seq![Attr::Fg(CODE_CLR)]);
                rows.push(Row::Single(make_text(line, attrs)));
                assert(rows.deep_view() =~= done.push(next));
            }
        },
    }
    assert(rows.deep_view() =~= expected);
    rows
}

/// Appends a code block for which the highlighter made the given spans, if any.
pub fn render_code_spans(
    out: &mut Vec<Element>,
    lang: Option<&str>,
    code: &str,
    spans: &BlockSpans,
)
    ensures
        final(out).deep_view() == old(out).deep_view() + code_block_elements(
            lang.deep_view(),
            code@,
            spans.deep_view(),
        ),
{
    let ghost before = out.deep_view();
    push_empty_row(out);
    if let Some(lang) = lang {
        let attrs: Vec<Attr> = vec![Attr::Dim, Attr::Italic];
        assert(attrs@ =~= seq![Attr::Dim, Attr::Italic]);
        push_text_row(out, owned(lang), attrs);
    }
    let rows = make_code_rows(code, spans);
    let ghost so_far = out.deep_view();
    out.push(Element::Panel { bg: SHADE, bars: None, px: 4, py: 1, rows });
    assert(out.deep_view() =~= so_far.push(
        ElementV::Panel {
            bg: SHADE,
            bars: None,
            px: 4,
            py: 1,
            rows: code_rows(code@, spans.deep_view()),
        },
    ));
    push_empty_row(out);
    assert(out.deep_view() =~= before + code_block_elements(
        lang.deep_view(),
        code@,
        spans.deep_view(),
    ));
}

/// Appends a code block, highlighted in the colors of the dark theme or of the light one if the
/// highlighter knows its language and can take it.
pub fn render_code_block(out: &mut Vec<Element>, lang: Option<&str>, code: &str, dark: bool)
    ensures
        exists|spans: BlockSpansV|
            {
                &&& is_highlighting(lang.deep_view(), code@, dark, spans)
                &&& final(out).deep_view() == old(out).deep_view()
                    + #[trigger] code_block_elements(lang.deep_view(), code@, spans)
            },
{
    let spans = highlight_block(lang, code, dark);
    render_code_spans(out, lang, code, &spans);
}

/// A diagram: its image, or a note that there is none yet.
pub open spec fn mermaid_elements(
    index: usize,
    source: Seq<char>,
    image: Option<ImageV>,
) -> Seq<ElementV> {
    let note = seq![Attr::Dim, Attr::Italic];
    if image is Some {
        seq![ElementV::Diagram(index)]
    } else if source.len() == 0 {
        seq![text_row("  mermaid (empty)"@, note)]
    } else {
        seq![text_row("  ⏳ rendering mermaid..."@, note)]
    }
}

/// Appends the diagram of the block with the given index.
pub fn render_mermaid(
    out: &mut Vec<Element>,
    index: usize,
    source: &str,
    image: &Option<RenderedImage>,
)
    ensures
        final(out).deep_view() == old(out).deep_view() + mermaid_elements(
            index,
            source@,
            image.deep_view(),
        ),
{
    let ghost before = out.deep_view();
    if image.is_some() {
        out.push(Element::Diagram(index));
    } else {
        let attrs: Vec<Attr> = vec![Attr::Dim, Attr::Italic];
        assert(attrs@ =~= seq![Attr::Dim, Attr::Italic]);
        if source.is_empty() {
            push_text_row(out, owned("  mermaid (empty)"), attrs);
        } else {
            push_text_row(out, owned("  ⏳ rendering mermaid..."), attrs);
        }
    }
    assert(out.deep_view() =~= before + mermaid_elements(index, source@, image.deep_view()));
}

/// A formula, centered between empty rows if it is displayed.
pub open spec fn math_elements(source: Seq<char>, display: bool) -> Seq<ElementV> {
    if display {
        seq![
            empty_row(),
            text_row(math_text(source), seq![Attr::Fg(MATH_CLR), Attr::Center]),
            empty_row(),
        ]
    } else {
        seq![text_row(math_text(source), seq![Attr::Fg(MATH_CLR)])]
    }
}

/// Appends a formula.
pub fn render_math(out: &mut Vec<Element>, source: &str, display: bool)
    ensures
        final(out).deep_view() == old(out).deep_view() + math_elements(source@, display),
{
    let ghost before = out.deep_view();
    let rendered = unicode_math(source);
    let mut attrs: Vec<Attr> = vec![Attr::Fg(MATH_CLR)];
    if display {
        attrs.push(Attr::Center);
        assert(attrs@ =~= seq![Attr::Fg(MATH_CLR), Attr::Center]);
        push_empty_row(out);
        push_text_row(out, rendered, attrs);
        push_empty_row(out);
    } else {
        assert(attrs@ =~= seq![Attr::Fg(MATH_CLR)]);
        push_text_row(out, rendered, attrs);
    }
    assert(out.deep_view() =~= before + math_elements(source@, display));
}

/// Public unicode math for cat mode.
pub fn unicode_math_pub(source: &str) -> (r: String)
    ensures
        r@ == math_text(source@),
{
    unicode_math(source)
}

/// An item with its bullet.
pub open spec fn item_element(item: Seq<char>) -> ElementV {
    ElementV::Row(
        RowV::Line(seq![styled("  • "@, seq![Attr::Fg(DIM)]), styled(item, Seq::empty())]),
    )
}

/// Appends a list: its items, one to a line.
pub fn render_list(out: &mut Vec<Element>, items: &[String])
    ensures
        final(out).deep_view() == old(out).deep_view() + items.deep_view().map_values(
            |item: Seq<char>| item_element(item),
        ),
{
    let ghost before = out.deep_view();
    let ghost expected = items.deep_view().map_values(|item: Seq<char>| item_element(item));
    let mut i: usize = 0;
    assert(out.deep_view() =~= before + expected.take(0));
    while i < items.len()
        invariant
            i <= items@.len(),
            expected == items.deep_view().map_values(|item: Seq<char>| item_element(item)),
            out.deep_view() == before + expected.take(i as int),
        decreases items@.len() - i,
    {
        let dim: Vec<Attr> = vec![Attr::Fg(DIM)];
        assert(dim@ =~= seq![Attr::Fg(DIM)]);
        let line: Vec<Piece> = vec![
            make_text(owned("  • "), dim),
            make_text(owned(items[i].as_str()), Vec::new()),
        ];
        assert(line.deep_view() =~= seq![
            styled("  • "@, seq![Attr::Fg(DIM)]),
            styled(items@[i as int]@, Seq::empty()),
        ]);
        push_line(out, line);
        assert(out.deep_view() =~= before + expected.take(i + 1));
        i += 1;
    }
    assert(expected.take(expected.len() as int) =~= expected);
}

/// A quotation in a panel with bars.
pub open spec fn blockquote_element(text: Seq<char>) -> ElementV {
    ElementV::Panel {
        bg: SHADE,
        bars: Some(DIM),
        px: 2,
        py: 1,
        rows: seq![RowV::Single(styled(text, seq![Attr::Italic, Attr::Dim]))],
    }
}

/// Appends a quotation.
pub fn render_blockquote(out: &mut Vec<Element>, text: &str)
    ensures
        final(out).deep_view() == old(out).deep_view().push(blockquote_element(text@)),
{
    let ghost before = out.deep_view();
    let attrs: Vec<Attr> = vec![Attr::Italic, Attr::Dim];
    assert(attrs@ =~= seq![Attr::Italic, Attr::Dim]);
    let rows: Vec<Row> = vec![Row::Single(make_text(owned(text), attrs))];
    assert(rows.deep_view() =~= seq![
        RowV::Single(styled(text@, seq![Attr::Italic, Attr::Dim])),
    ]);
    out.push(Element::Panel { bg: SHADE, bars: Some(DIM), px: 2, py: 1, rows });
    assert(out.deep_view() =~= before.push(blockquote_element(text@)));
}

/// A rule between empty rows.
pub open spec fn hr_elements(width: nat) -> Seq<ElementV> {
    seq![empty_row(), text_row(repeated('─', width), seq![Attr::Fg(DIM)]), empty_row()]
}

/// Appends a rule.
pub fn render_hr(out: &mut Vec<Element>, width: usize)
    ensures
        final(out).deep_view() == old(out).deep_view() + hr_elements(width as nat),
{
    push_empty_row(out);
    push_rule(out, '─', width);
    push_empty_row(out);
    assert(out.deep_view() =~= old(out).deep_view() + hr_elements(width as nat));
}

/// The headers of a table, each in its column.
pub open spec fn header_pieces(headers: Seq<Seq<char>>, rows: Seq<Seq<Seq<char>>>) -> Seq<PieceV> {
    Seq::new(
        headers.len(),
        |i: int|
            styled(
                padded(headers[i], column_width(headers, rows, i)),
                seq![Attr::Bold, Attr::Fg(ACCENT)],
            ),
    )
}

/// The rules below the headers of a table.
pub open spec fn rule_pieces(headers: Seq<Seq<char>>, rows: Seq<Seq<Seq<char>>>) -> Seq<PieceV> {
    Seq::new(
        headers.len(),
        |i: int| styled(repeated('─', column_width(headers, rows, i)), seq![Attr::Fg(DIM)]),
    )
}

/// The cells of a table row, each in its column.
pub open spec fn cell_pieces(
    headers: Seq<Seq<char>>,
    rows: Seq<Seq<Seq<char>>>,
    row: Seq<Seq<char>>,
) -> Seq<PieceV> {
    Seq::new(
        row.len(),
        |i: int| styled(padded(row[i], column_width(headers, rows, i)), Seq::empty()),
    )
}

/// A table: a line of headers, one of rules and one for each row; nothing without headers.
pub open spec fn table_elements(
    headers: Seq<Seq<char>>,
    rows: Seq<Seq<Seq<char>>>,
) -> Seq<ElementV> {
    if headers.len() == 0 {
        Seq::empty()
    } else {
        seq![
            ElementV::Row(RowV::Line(header_pieces(headers, rows))),
            ElementV::Row(RowV::Line(rule_pieces(headers, rows))),
        ] + rows.map_values(
            |row: Seq<Seq<char>>| ElementV::Row(RowV::Line(cell_pieces(headers, rows, row))),
        )
    }
}

/// The headers of a table.
fn make_headers(headers: &[String], rows: &[Vec<String>], sizes: &Vec<usize>) -> (pieces: Vec<
    Piece,
>)
    requires
        sizes@.len() == headers@.len(),
        forall|i: int|
            0 <= i < sizes@.len() ==> #[trigger] sizes@[i] == column_size(
                headers.deep_view(),
                rows.deep_view(),
                i,
            ),
    ensures
        pieces.deep_view() == header_pieces(headers.deep_view(), rows.deep_view()),
{
    let ghost names = headers.deep_view();
    let ghost all = rows.deep_view();
    let mut pieces: Vec<Piece> = Vec::new();
    let mut i: usize = 0;
    while i < headers.len()
        invariant
            i <= headers@.len(),
            sizes@.len() == headers@.len(),
            names == headers.deep_view(),
            all == rows.deep_view(),
            forall|k: int|
                0 <= k < sizes@.len() ==> #[trigger] sizes@[k] == column_size(names, all, k),
            pieces.deep_view() =~= header_pieces(names, all).take(i as int),
        decreases headers@.len() - i,
    {
        let ghost done = pieces.deep_view();
        let mut text = String::new();
        push_padded(&mut text, headers[i].as_str(), sizes[i], 2);
        assert(text@ =~= padded(names[i as int], column_width(names, all, i as int)));
        let attrs: Vec<Attr> = vec![Attr::Bold, Attr::Fg(ACCENT)];
        assert(attrs@ =~= seq![Attr::Bold, Attr::Fg(ACCENT)]);
        pieces.push(make_text(text, attrs));
        assert(pieces.deep_view() =~= done.push(header_pieces(names, all)[i as int]));
        i += 1;
    }
    pieces
}

/// The rules below the headers of a table.
fn make_rules(headers: &[String], rows: &[Vec<String>], sizes: &Vec<usize>) -> (pieces: Vec<Piece>)
    requires
        sizes@.len() == headers@.len(),
        forall|i: int|
            0 <= i < sizes@.len() ==> #[trigger] sizes@[i] == column_size(
                headers.deep_view(),
                rows.deep_view(),
                i,
            ),
    ensures
        pieces.deep_view() == rule_pieces(headers.deep_view(), rows.deep_view()),
{
    let ghost names = headers.deep_view();
    let ghost all = rows.deep_view();
    let mut pieces: Vec<Piece> = Vec::new();
    let mut i: usize = 0;
    while i < sizes.len()
        invariant
            i <= sizes@.len(),
            sizes@.len() == names.len(),
            names == headers.deep_view(),
            all == rows.deep_view(),
            forall|k: int|
                0 <= k < sizes@.len() ==> #[trigger] sizes@[k] == column_size(names, all, k),
            pieces.deep_view() =~= rule_pieces(names, all).take(i as int),
        decreases sizes@.len() - i,
    {
        let ghost done = pieces.deep_view();
        let mut text = String::new();
        push_repeated(&mut text, '─', sizes[i]);
        push_repeated(&mut text, '─', 2);
        assert(text@ =~= repeated('─', column_width(names, all, i as int)));
        let attrs: Vec<Attr> = vec![Attr::Fg(DIM)];
        assert(attrs@ =~= seq![Attr::Fg(DIM)]);
        pieces.push(make_text(text, attrs));
        assert(pieces.deep_view() =~= done.push(rule_pieces(names, all)[i as int]));
        i += 1;
    }
    pieces
}

/// The cells of a table row.
fn make_cells(
    headers: &[String],
    rows: &[Vec<String>],
    sizes: &Vec<usize>,
    row: &Vec<String>,
) -> (pieces: Vec<Piece>)
    requires
        sizes@.len() == headers@.len(),
        forall|i: int|
            0 <= i < sizes@.len() ==> #[trigger] sizes@[i] == column_size(
                headers.deep_view(),
                rows.deep_view(),
                i,
            ),
    ensures
        pieces.deep_view() == cell_pieces(headers.deep_view(), rows.deep_view(), row.deep_view()),
{
    let ghost names = headers.deep_view();
    let ghost all = rows.deep_view();
    let ghost cells = row.deep_view();
    let mut pieces: Vec<Piece> = Vec::new();
    let mut i: usize = 0;
    while i < row.len()
        invariant
            i <= row@.len(),
            sizes@.len() == names.len(),
            names == headers.deep_view(),
            all == rows.deep_view(),
            cells == row.deep_view(),
            forall|k: int|
                0 <= k < sizes@.len() ==> #[trigger] sizes@[k] == column_size(names, all, k),
            pieces.deep_view() =~= cell_pieces(names, all, cells).take(i as int),
        decreases row@.len() - i,
    {
        let ghost done = pieces.deep_view();
        let mut text = String::new();
        if i < sizes.len() {
            push_padded(&mut text, row[i].as_str(), sizes[i], 2);
        } else {
            push_padded(&mut text, row[i].as_str(), 10, 0);
        }
        assert(text@ =~= padded(cells[i as int], column_width(names, all, i as int)));
        pieces.push(make_text(text, Vec::new()));
        assert(pieces.deep_view() =~= done.push(cell_pieces(names, all, cells)[i as int]));
        i += 1;
    }
    pieces
}

/// Appends a table.
pub fn render_table(out: &mut Vec<Element>, headers: &[String], rows: &[Vec<String>])
    ensures
        final(out).deep_view() == old(out).deep_view() + table_elements(
            headers.deep_view(),
            rows.deep_view(),
        ),
{
    let ghost before = out.deep_view();
    let ghost names = headers.deep_view();
    let ghost all = rows.deep_view();
    if headers.len() == 0 {
        assert(out.deep_view() =~= before + table_elements(names, all));
        return ;
    }
    let sizes = column_sizes(headers, rows);
    push_line(out, make_headers(headers, rows, &sizes));
    push_line(out, make_rules(headers, rows, &sizes));
    let ghost expected = table_elements(names, all);
    let mut r: usize = 0;
    assert(out.deep_view() =~= before + expected.take(2));
    while r < rows.len()
        invariant
            r <= rows@.len(),
            headers@.len() > 0,
            sizes@.len() == headers@.len(),
            names == headers.deep_view(),
            all == rows.deep_view(),
            expected == table_elements(names, all),
            forall|k: int|
                0 <= k < sizes@.len() ==> #[trigger] sizes@[k] == column_size(names, all, k),
            out.deep_view() == before + expected.take(2 + r),
        decreases rows@.len() - r,
    {
        push_line(out, make_cells(headers, rows, &sizes, &rows[r]));
        assert(all[r as int] == rows@[r as int].deep_view());
        assert(out.deep_view() =~= before + expected.take(2 + r + 1));
        r += 1;
    }
    assert(expected.take(expected.len() as int) =~= expected);
}

/// The elements of the block with the given index, in a given width; the spans are those of a code
/// block.
pub open spec fn block_elements(
    index: usize,
    block: BlockV,
    spans: BlockSpansV,
    width: nat,
) -> Seq<ElementV> {
    match block {
        BlockV::Heading { level, text } => heading_elements(level, text, width),
        BlockV::Paragraph { inlines } => paragraph_elements(inlines),
        BlockV::CodeBlock { lang, code } => code_block_elements(lang, code, spans),
        BlockV::Mermaid { source, image } => mermaid_elements(index, source, image),
        BlockV::Math { source, display } => math_elements(source, display),
        BlockV::List { items } => items.map_values(|item: Seq<char>| item_element(item)),
        BlockV::BlockQuote { text } => seq![blockquote_element(text)],
        BlockV::ThematicBreak => hr_elements(width),
        BlockV::Table { headers, rows } => table_elements(headers, rows),
    }
}

/// Appends the block with the given index; the spans are those of a code block.
pub fn render_block(
    out: &mut Vec<Element>,
    index: usize,
    block: &Block,
    spans: &BlockSpans,
    width: usize,
)
    requires
        block.deep_view() matches BlockV::Heading { level: 2, text: _ } ==> width * 2 <= usize::MAX,
    ensures
        final(out).deep_view() == old(out).deep_view() + block_elements(
            index,
            block.deep_view(),
            spans.deep_view(),
            width as nat,
        ),
{
    match block {
        Block::Heading { level, text } => render_heading(out, *level, text.as_str(), width),
        Block::Paragraph { inlines } => render_paragraph(out, inlines.as_slice()),
        Block::CodeBlock { lang, code } => {
            let lang: Option<&str> = match lang {
                Some(lang) => Some(lang.as_str()),
                None => None,
            };
            render_code_spans(out, lang, code.as_str(), spans)
        },
        Block::Mermaid { source, image } => render_mermaid(out, index, source.as_str(), image),
        Block::Math { source, display } => render_math(out, source.as_str(), *display),
        Block::List { items } => render_list(out, items.as_slice()),
        Block::BlockQuote { text } => {
            render_blockquote(out, text.as_str());
            assert(out.deep_view() =~= old(out).deep_view() + seq![blockquote_element(text@)]);
        },
        Block::ThematicBreak => render_hr(out, width),
        Block::Table { headers, rows } => render_table(out, headers.as_slice(), rows.as_slice()),
    }
}

/// A document in a terminal of the given number of columns, ten of which stay free: the elements
/// of its blocks, each with its spans, with an empty row between each two blocks.
pub open spec fn document_elements(
    blocks: Seq<BlockV>,
    spans: Seq<BlockSpansV>,
    cols: u16,
) -> Seq<ElementV>
    decreases blocks.len(),
{
    let width = padding(cols as nat, 10);
    if blocks.len() == 0 {
        Seq::empty()
    } else if blocks.len() == 1 {
        block_elements(0, blocks[0], spans[0], width)
    } else {
        document_elements(blocks.drop_last(), spans.drop_last(), cols).push(empty_row())
            + block_elements((blocks.len() - 1) as usize, blocks.last(), spans.last(), width)
    }
}

/// A document of one more block is the document, an empty row unless it was empty, and the block.
proof fn lemma_document_of_one_more(
    blocks: Seq<BlockV>,
    spans: Seq<BlockSpansV>,
    i: int,
    cols: u16,
)
    requires
        0 <= i < blocks.len() <= usize::MAX,
        spans.len() == blocks.len(),
    ensures
        ({
            let before = document_elements(blocks.take(i), spans.take(i), cols);
            let gap = if i > 0 {
                before.push(empty_row())
            } else {
                before
            };
            document_elements(blocks.take(i + 1), spans.take(i + 1), cols) == gap + block_elements(
                i as usize,
                blocks[i],
                spans[i],
                padding(cols as nat, 10),
            )
        }),
{
    let some = blocks.take(i + 1);
    let theirs = spans.take(i + 1);
    assert(some.drop_last() =~= blocks.take(i));
    assert(theirs.drop_last() =~= spans.take(i));
    assert(some.last() == blocks[i] && theirs.last() == spans[i]);
    if i == 0 {
        let added = block_elements(0, blocks[0], spans[0], padding(cols as nat, 10));
        assert(Seq::<ElementV>::empty() + added =~= added);
    }
}

/// Render all blocks, each with its spans.
pub fn render_blocks(blocks: &[Block], spans: &[BlockSpans], cols: u16) -> (elements: Vec<Element>)
    requires
        spans@.len() == blocks@.len(),
    ensures
        elements.deep_view() == document_elements(blocks.deep_view(), spans.deep_view(), cols),
{
    let width: usize = content_width(cols);
    let ghost all = blocks.deep_view();
    let ghost theirs = spans.deep_view();
    let mut elements: Vec<Element> = Vec::new();
    let mut i: usize = 0;
    assert(elements.deep_view() =~= document_elements(all.take(0), theirs.take(0), cols));
    while i < blocks.len()
        invariant
            i <= blocks@.len(),
            spans@.len() == blocks@.len(),
            width == padding(cols as nat, 10),
            width <= 65535,
            all == blocks.deep_view(),
            theirs == spans.deep_view(),
            elements.deep_view() == document_elements(
                all.take(i as int),
                theirs.take(i as int),
                cols,
            ),
        decreases blocks@.len() - i,
    {
        proof {
            lemma_document_of_one_more(all, theirs, i as int, cols);
        }
        if i > 0 {
            push_empty_row(&mut elements);
        }
        render_block(&mut elements, i, &blocks[i], &spans[i], width);
        i += 1;
    }
    assert(all.take(all.len() as int) =~= all);
    assert(theirs.take(theirs.len() as int) =~= theirs);
    elements
}

/// Render all blocks, with code in the colors of the dark theme or of the light one.
pub fn render_highlighted(blocks: &[Block], cols: u16, dark: bool) -> (elements: Vec<Element>)
    ensures
        exists|spans: Seq<BlockSpansV>|
            {
                &&& is_document_highlighting(blocks.deep_view(), dark, spans)
                &&& elements.deep_view() == #[trigger] document_elements(
                    blocks.deep_view(),
                    spans,
                    cols,
                )
            },
{
    let spans = highlight_blocks(blocks, dark);
    render_blocks(blocks, spans.as_slice(), cols)
}

/// Parse markdown content into blocks (mermaid images NOT rendered yet).
pub fn render_markdown_fast(content: &str) -> (blocks: Vec<Block>)
    ensures
        blocks.deep_view() == blocks_of(document(content@)),
        blocks_wf(blocks.deep_view()),
{
    parse(content)
}

/// Only the index of a diagram that has its image stands in an element.
pub open spec fn shows_image_of(element: ElementV, blocks: Seq<BlockV>) -> bool {
    element matches ElementV::Diagram(index) ==> {
        &&& index < blocks.len()
        &&& blocks[index as int] matches BlockV::Mermaid { source: _, image: Some(_) }
    }
}

/// An image is drawn only where there is one: every element of a document that shows the image of
/// a block stands for a diagram with an image.
pub proof fn law_drawn_images_exist(
    blocks: Seq<BlockV>,
    spans: Seq<BlockSpansV>,
    cols: u16,
)
    requires
        blocks.len() <= usize::MAX,
    ensures
        forall|k: int|
            0 <= k < document_elements(blocks, spans, cols).len() ==> shows_image_of(
                #[trigger] document_elements(blocks, spans, cols)[k],
                blocks,
            ),
    decreases blocks.len(),
{
    if blocks.len() > 0 {
        let rest = blocks.drop_last();
        let width = padding(cols as nat, 10);
        let index = (blocks.len() - 1) as usize;
        let theirs = spans.drop_last();
        let last = if blocks.len() == 1 {
            spans[0]
        } else {
            spans.last()
        };
        let added = block_elements(index, blocks.last(), last, width);
        let all = document_elements(blocks, spans, cols);
        law_drawn_images_exist(rest, theirs, cols);
        assert forall|k: int| 0 <= k < added.len() implies shows_image_of(
            #[trigger] added[k],
            blocks,
        ) by {}
        assert forall|k: int| 0 <= k < all.len() implies shows_image_of(
            #[trigger] all[k],
            blocks,
        ) by {
            if blocks.len() == 1 {
                assert(all[k] == added[k]);
            } else {
                let before = document_elements(rest, theirs, cols);
                if k < before.len() {
                    assert(all[k] == before[k]);
                    assert(shows_image_of(before[k], rest));
                } else if k > before.len() {
                    assert(all[k] == added[k - before.len() - 1]);
                }
            }
        }
    }
}

/// The text of a piece.
pub open spec fn piece_text(piece: PieceV) -> Seq<char> {
    match piece {
        PieceV::Text { text, attrs: _ } => text,
        PieceV::Link { text, url: _, attrs: _ } => text,
        PieceV::Code(span) => span.text,
    }
}

/// The texts of pieces, one after the other.
pub open spec fn pieces_text(pieces: Seq<PieceV>) -> Seq<char>
    decreases pieces.len(),
{
    if pieces.len() == 0 {
        Seq::empty()
    } else {
        pieces_text(pieces.drop_last()) + piece_text(pieces.last())
    }
}

/// The text of a row.
pub open spec fn row_text(row: RowV) -> Seq<char> {
    match row {
        RowV::Single(piece) => piece_text(piece),
        RowV::Line(pieces) => pieces_text(pieces),
        RowV::Wrapped(pieces) => pieces_text(pieces),
    }
}

/// The pieces of a line of spans hold the text of the spans.
proof fn lemma_span_pieces_text(spans: Seq<CodeSpanV>)
    ensures
        pieces_text(spans.map_values(|span: CodeSpanV| PieceV::Code(span))) == line_text(spans),
    decreases spans.len(),
{
    let pieces = spans.map_values(|span: CodeSpanV| PieceV::Code(span));
    if spans.len() > 0 {
        let rest = spans.drop_last();
        lemma_span_pieces_text(rest);
        assert(pieces.drop_last() =~= rest.map_values(|span: CodeSpanV| PieceV::Code(span)));
    }
}

/// Whatever the highlighter makes of a code block, its rows show the lines of the code and nothing
/// else.
pub proof fn law_code_rows_show_the_code(
    lang: Option<Seq<char>>,
    code: Seq<char>,
    dark: bool,
    spans: BlockSpansV,
)
    requires
        is_highlighting(lang, code, dark, spans),
    ensures
        code_rows(code, spans).map_values(|row: RowV| row_text(row)) == if spans is Some {
            split_lines(trimmed_end(code))
        } else {
            lines_of(trimmed_end(code))
        },
{
    let texts = code_rows(code, spans).map_values(|row: RowV| row_text(row));
    match spans {
        Some(code_lines) => {
            let expected = code_lines.map_values(|line: Seq<CodeSpanV>| line_text(line));
            assert(holds_code(code_lines, trimmed_end(code)));
            assert forall|k: int| 0 <= k < texts.len() implies texts[k] == expected[k] by {
                lemma_span_pieces_text(code_lines[k]);
            }
            assert(texts =~= expected);
        },
        None => {
            assert(texts =~= lines_of(trimmed_end(code)));
        },
    }
}

/// What is shown of an inline: code has a space on either side, a formula is shown as Unicode text,
/// and everything else is shown by its bare text.
pub open spec fn shown_text(inline: InlineV) -> Seq<char> {
    match inline {
        InlineV::Code(t) => seq![' '] + t + seq![' '],
        InlineV::Math { source } => math_text(source),
        _ => bare_text(inline),
    }
}

/// What is shown of inlines, one after the other.
pub open spec fn shown_texts(inlines: Seq<InlineV>) -> Seq<char>
    decreases inlines.len(),
{
    if inlines.len() == 0 {
        Seq::empty()
    } else {
        shown_texts(inlines.drop_last()) + shown_text(inlines.last())
    }
}

/// The piece of an inline shows the inline.
proof fn lemma_piece_shows_the_inline(inline: InlineV)
    ensures
        piece_text(inline_piece(inline)) == shown_text(inline),
{
    reveal_strlit(" ");
    assert(" "@ =~= seq![' ']);
}

/// The pieces of inlines show the inlines.
proof fn lemma_pieces_show_the_inlines(inlines: Seq<InlineV>)
    ensures
        pieces_text(inlines.map_values(|inline: InlineV| inline_piece(inline))) == shown_texts(
            inlines,
        ),
    decreases inlines.len(),
{
    let pieces = inlines.map_values(|inline: InlineV| inline_piece(inline));
    if inlines.len() > 0 {
        let rest = inlines.drop_last();
        lemma_pieces_show_the_inlines(rest);
        lemma_piece_shows_the_inline(inlines.last());
        assert(pieces.drop_last() =~= rest.map_values(|inline: InlineV| inline_piece(inline)));
    }
}

/// Without code and formulas, what is shown of inlines is their bare text.
proof fn lemma_shown_is_bare(inlines: Seq<InlineV>)
    requires
        forall|i: int|
            0 <= i < inlines.len() ==> !(#[trigger] inlines[i] is Code) && !(inlines[i] is Math),
    ensures
        shown_texts(inlines) == bare_texts(inlines),
    decreases inlines.len(),
{
    if inlines.len() > 0 {
        let rest = inlines.drop_last();
        assert forall|i: int| 0 <= i < rest.len() implies !(#[trigger] rest[i] is Code) && !(rest[i]
            is Math) by {
            assert(rest[i] == inlines[i]);
        }
        lemma_shown_is_bare(rest);
        assert(!(inlines[inlines.len() - 1] is Code));
    }
}

/// A paragraph shows its text: its inlines stand on one row that wraps, and the texts of its
/// pieces, one after the other, are what is shown of the inlines; without code and formulas that is
/// their bare text.
pub proof fn law_paragraph_shows_its_text(inlines: Seq<InlineV>)
    requires
        inlines.len() > 0,
    ensures
        paragraph_elements(inlines).len() == 1,
        paragraph_elements(inlines)[0] matches ElementV::Row(RowV::Wrapped(pieces)) && {
            &&& pieces.len() == inlines.len()
            &&& pieces_text(pieces) == shown_texts(inlines)
            &&& (forall|i: int|
                0 <= i < inlines.len() ==> !(#[trigger] inlines[i] is Code) && !(inlines[i]
                    is Math)) ==> pieces_text(pieces) == bare_texts(inlines)
        },
{
    lemma_pieces_show_the_inlines(inlines);
    if forall|i: int|
        0 <= i < inlines.len() ==> !(#[trigger] inlines[i] is Code) && !(inlines[i] is Math) {
        lemma_shown_is_bare(inlines);
    }
}

/// How inlines are styled: by their kind alone, and a link carries its destination.
pub proof fn law_inlines_are_styled_by_kind(t: Seq<char>, url: Seq<char>)
    ensures
        inline_piece(InlineV::Text(t)) == (PieceV::Text { text: t, attrs: seq![] }),
        inline_piece(InlineV::Bold(t)) == (PieceV::Text { text: t, attrs: seq![Attr::Bold] }),
        inline_piece(InlineV::Italic(t)) == (PieceV::Text { text: t, attrs: seq![Attr::Italic] }),
        inline_piece(InlineV::Strikethrough(t)) == (PieceV::Text {
            text: t,
            attrs: seq![Attr::Strikethrough, Attr::Dim],
        }),
        inline_piece(InlineV::Code(t)) == (PieceV::Text {
            text: seq![' '] + t + seq![' '],
            attrs: seq![Attr::Fg(210), Attr::Bg(234)],
        }),
        inline_piece(InlineV::Link { text: t, url }) == (PieceV::Link {
            text: t,
            url,
            attrs: seq![Attr::Fg(111), Attr::Underline],
        }),
        inline_piece(InlineV::Math { source: t }) == (PieceV::Text {
            text: math_text(t),
            attrs: seq![Attr::Fg(183)],
        }),
{
    reveal_strlit(" ");
    assert(" "@ =~= seq![' ']);
}

/// The texts of the rows of an element.
pub open spec fn element_lines(element: ElementV) -> Seq<Seq<char>> {
    match element {
        ElementV::Row(row) => seq![row_text(row)],
        ElementV::Panel { bg: _, bars: _, px: _, py: _, rows } => rows.map_values(
            |row: RowV| row_text(row),
        ),
        ElementV::Diagram(_) => Seq::empty(),
    }
}

/// The texts of the rows of elements, one element after the other.
pub open spec fn elements_lines(elements: Seq<ElementV>) -> Seq<Seq<char>>
    decreases elements.len(),
{
    if elements.len() == 0 {
        Seq::empty()
    } else {
        elements_lines(elements.drop_last()) + element_lines(elements.last())
    }
}

/// The lines of up to four elements.
proof fn lemma_lines_of_few(a: ElementV, b: ElementV, c: ElementV, d: ElementV)
    ensures
        elements_lines(seq![a]) == element_lines(a),
        elements_lines(seq![a, b]) == element_lines(a) + element_lines(b),
        elements_lines(seq![a, b, c]) == element_lines(a) + element_lines(b) + element_lines(c),
        elements_lines(seq![a, b, c, d]) == element_lines(a) + element_lines(b) + element_lines(c)
            + element_lines(d),
{
    assert(elements_lines(Seq::<ElementV>::empty()) =~= Seq::<Seq<char>>::empty());
    assert(seq![a].drop_last() =~= Seq::empty());
    assert(elements_lines(seq![a]) =~= element_lines(a));
    let two = seq![a, b];
    assert(two.drop_last() =~= seq![a]);
    assert(elements_lines(two) == elements_lines(two.drop_last()) + element_lines(b));
    let three = seq![a, b, c];
    assert(three.drop_last() =~= two);
    assert(elements_lines(three) == elements_lines(three.drop_last()) + element_lines(c));
    let four = seq![a, b, c, d];
    assert(four.drop_last() =~= three);
    assert(elements_lines(four) == elements_lines(four.drop_last()) + element_lines(d));
}

/// The lines of two runs of elements are those of the first and then those of the second.
proof fn lemma_lines_of_two_runs(a: Seq<ElementV>, b: Seq<ElementV>)
    ensures
        elements_lines(a + b) == elements_lines(a) + elements_lines(b),
    decreases b.len(),
{
    if b.len() == 0 {
        assert(a + b =~= a);
        assert(elements_lines(a) + elements_lines(b) =~= elements_lines(a));
    } else {
        assert((a + b).drop_last() =~= a + b.drop_last());
        lemma_lines_of_two_runs(a, b.drop_last());
        assert(elements_lines(a + b) =~= elements_lines(a) + elements_lines(b));
    }
}

/// Elements that are rows have one line each.
proof fn lemma_lines_of_rows(elements: Seq<ElementV>)
    requires
        forall|i: int| 0 <= i < elements.len() ==> #[trigger] elements[i] is Row,
    ensures
        elements_lines(elements) == elements.map_values(
            |element: ElementV| row_text(element->Row_0),
        ),
    decreases elements.len(),
{
    let text = |element: ElementV| row_text(element->Row_0);
    if elements.len() == 0 {
        assert(elements_lines(elements) =~= elements.map_values(text));
    } else {
        let rest = elements.drop_last();
        assert forall|i: int| 0 <= i < rest.len() implies #[trigger] rest[i] is Row by {
            assert(rest[i] == elements[i]);
        }
        lemma_lines_of_rows(rest);
        assert(elements[elements.len() - 1] is Row);
        assert(elements_lines(elements) =~= elements.map_values(text));
    }
}

/// The parts, one after the other.
pub open spec fn joined(parts: Seq<Seq<char>>) -> Seq<char>
    decreases parts.len(),
{
    if parts.len() == 0 {
        Seq::empty()
    } else {
        joined(parts.drop_last()) + parts.last()
    }
}

/// The text of pieces is that of each, one after the other.
proof fn lemma_pieces_are_joined(pieces: Seq<PieceV>)
    ensures
        pieces_text(pieces) == joined(pieces.map_values(|piece: PieceV| piece_text(piece))),
    decreases pieces.len(),
{
    let texts = pieces.map_values(|piece: PieceV| piece_text(piece));
    if pieces.len() > 0 {
        let rest = pieces.drop_last();
        lemma_pieces_are_joined(rest);
        assert(texts.drop_last() =~= rest.map_values(|piece: PieceV| piece_text(piece)));
    }
}

/// A row of a table: each cell and the spaces behind it that fill its column, and for a cell beyond
/// the headers those that fill ten columns.
pub open spec fn cells_line(
    headers: Seq<Seq<char>>,
    rows: Seq<Seq<Seq<char>>>,
    cells: Seq<Seq<char>>,
) -> Seq<char> {
    joined(
        Seq::new(
            cells.len(),
            |i: int|
                cells[i] + repeated(' ', padding(column_width(headers, rows, i), cells[i].len())),
        ),
    )
}

/// The lines of a code block: those between the line feeds of the code if it is highlighted, else
/// its lines without their endings.
pub open spec fn code_lines(code: Seq<char>, spans: BlockSpansV) -> Seq<Seq<char>> {
    match spans {
        Some(lines) => lines.map_values(|line: Seq<CodeSpanV>| line_text(line)),
        None => lines_of(trimmed_end(code)),
    }
}

/// A line with the given text.
pub open spec fn one_line(text: Seq<char>) -> Seq<Seq<char>> {
    seq![text]
}

/// What the rows of a heading, a formula, a rule and a list read, for every text.
pub proof fn law_rows_show_the_text(
    level: u8,
    text: Seq<char>,
    width: nat,
    items: Seq<Seq<char>>,
)
    ensures
        ({
            let title = repeated('#', level as nat) + seq![' '] + text;
            let none = Seq::<char>::empty();
            let lines = elements_lines(heading_elements(level, text, width));
            &&& level == 1 ==> lines == seq![none, title, repeated('━', width), none]
            &&& level == 2 ==> lines == seq![none, title, repeated('─', width * 2 / 3)]
            &&& level == 3 ==> lines == seq![none, title]
            &&& level == 0 || level >= 4 ==> lines == seq![title]
        }),
        elements_lines(math_elements(text, true)) == seq![
            Seq::<char>::empty(),
            math_text(text),
            Seq::<char>::empty(),
        ],
        elements_lines(math_elements(text, false)) == one_line(math_text(text)),
        elements_lines(hr_elements(width)) == seq![
            Seq::<char>::empty(),
            repeated('─', width),
            Seq::<char>::empty(),
        ],
        elements_lines(seq![blockquote_element(text)]) == one_line(text),
        elements_lines(items.map_values(|item: Seq<char>| item_element(item))) == items.map_values(
            |item: Seq<char>| seq![' ', ' ', '•', ' '] + item,
        ),
{
    reveal_strlit(" ");
    assert(" "@ =~= seq![' ']);
    reveal_strlit("  • ");
    assert("  • "@ =~= seq![' ', ' ', '•', ' ']);
    let signs = styled(repeated('#', level as nat) + " "@, seq![Attr::Fg(DIM)]);
    let name = styled(text, heading_attrs(level));
    lemma_two_pieces(signs, name);
    let quote = seq![RowV::Single(styled(text, seq![Attr::Italic, Attr::Dim]))];
    assert(quote.map_values(|row: RowV| row_text(row)) =~= one_line(text));
    let made = items.map_values(|item: Seq<char>| item_element(item));
    lemma_lines_of_rows(made);
    let shown = items.map_values(|item: Seq<char>| seq![' ', ' ', '•', ' '] + item);
    assert forall|i: int| 0 <= i < items.len() implies row_text((#[trigger] made[i])->Row_0)
        == shown[i] by {
        lemma_two_pieces(
            styled("  • "@, seq![Attr::Fg(DIM)]),
            styled(items[i], Seq::empty()),
        );
    }
    assert(made.map_values(|element: ElementV| row_text(element->Row_0)) =~= shown);
    let none = Seq::<char>::empty();
    let title = repeated('#', level as nat) + seq![' '] + text;
    let lines = elements_lines(heading_elements(level, text, width));
    let row = ElementV::Row(RowV::Line(seq![signs, name]));
    let gray = seq![Attr::Fg(DIM)];
    assert(element_lines(row) =~= one_line(title));
    assert(element_lines(empty_row()) =~= one_line(none));
    lemma_lines_of_few(empty_row(), row, text_row(repeated('━', width), gray), empty_row());
    lemma_lines_of_few(empty_row(), row, text_row(repeated('─', width * 2 / 3), gray), empty_row());
    lemma_lines_of_few(row, row, row, row);
    lemma_lines_of_few(
        empty_row(),
        text_row(math_text(text), seq![Attr::Fg(MATH_CLR), Attr::Center]),
        empty_row(),
        row,
    );
    lemma_lines_of_few(text_row(math_text(text), seq![Attr::Fg(MATH_CLR)]), row, row, row);
    lemma_lines_of_few(empty_row(), text_row(repeated('─', width), gray), empty_row(), row);
    lemma_lines_of_few(blockquote_element(text), row, row, row);
    if level == 1 {
        assert(lines =~= seq![none, title, repeated('━', width), none]);
    } else if level == 2 {
        assert(lines =~= seq![none, title, repeated('─', width * 2 / 3)]);
    } else if level == 3 {
        assert(lines =~= seq![none, title]);
    } else {
        assert(lines =~= seq![title]);
    }
    assert(elements_lines(math_elements(text, true)) =~= seq![none, math_text(text), none]);
    assert(elements_lines(math_elements(text, false)) =~= one_line(math_text(text)));
    assert(elements_lines(hr_elements(width)) =~= seq![none, repeated('─', width), none]);
    assert(elements_lines(seq![blockquote_element(text)]) =~= one_line(text));
}

/// The text of two pieces.
proof fn lemma_two_pieces(a: PieceV, b: PieceV)
    ensures
        pieces_text(seq![a, b]) == piece_text(a) + piece_text(b),
{
    let both = seq![a, b];
    assert(both.drop_last() =~= seq![a]);
    assert(seq![a].drop_last() =~= Seq::empty());
    assert(pieces_text(Seq::<PieceV>::empty()) =~= Seq::<char>::empty());
    assert(pieces_text(seq![a]) =~= piece_text(a));
}

/// What the rows of a table read: the headers, the rules below them and the cells of each row,
/// every one in its column; and a table without headers has no rows.
pub proof fn law_table_rows_show_the_cells(headers: Seq<Seq<char>>, rows: Seq<Seq<Seq<char>>>)
    ensures
        headers.len() == 0 ==> table_elements(headers, rows).len() == 0,
        headers.len() > 0 ==> elements_lines(table_elements(headers, rows)) == seq![
            cells_line(headers, rows, headers),
            joined(Seq::new(headers.len(), |i: int| repeated('─', column_width(headers, rows, i)))),
        ] + rows.map_values(|row: Seq<Seq<char>>| cells_line(headers, rows, row)),
{
    if headers.len() > 0 {
        let made = table_elements(headers, rows);
        lemma_lines_of_rows(made);
        let shown = seq![
            cells_line(headers, rows, headers),
            joined(Seq::new(headers.len(), |i: int| repeated('─', column_width(headers, rows, i)))),
        ] + rows.map_values(|row: Seq<Seq<char>>| cells_line(headers, rows, row));
        let text = |piece: PieceV| piece_text(piece);
        assert forall|i: int| 0 <= i < made.len() implies row_text((#[trigger] made[i])->Row_0)
            == shown[i] by {
            if i == 0 {
                let pieces = header_pieces(headers, rows);
                lemma_pieces_are_joined(pieces);
                assert(pieces.map_values(text) =~= Seq::new(
                    headers.len(),
                    |i: int|
                        headers[i] + repeated(
                            ' ',
                            padding(column_width(headers, rows, i), headers[i].len()),
                        ),
                ));
            } else if i == 1 {
                let pieces = rule_pieces(headers, rows);
                lemma_pieces_are_joined(pieces);
                assert(pieces.map_values(text) =~= Seq::new(
                    headers.len(),
                    |i: int| repeated('─', column_width(headers, rows, i)),
                ));
            } else {
                let row = rows[i - 2];
                let pieces = cell_pieces(headers, rows, row);
                lemma_pieces_are_joined(pieces);
                assert(pieces.map_values(text) =~= Seq::new(
                    row.len(),
                    |i: int|
                        row[i] + repeated(
                            ' ',
                            padding(column_width(headers, rows, i), row[i].len()),
                        ),
                ));
                assert(made[i] == ElementV::Row(RowV::Line(pieces)));
            }
        }
        assert(made.map_values(|element: ElementV| row_text(element->Row_0)) =~= shown);
    }
}

/// What the rows of a code block read: its language, if it has one, and the code, between empty
/// rows.
pub proof fn law_code_block_rows_show_the_code(
    lang: Option<Seq<char>>,
    code: Seq<char>,
    spans: BlockSpansV,
)
    ensures
        elements_lines(code_block_elements(lang, code, spans)) == one_line(Seq::empty()) + (
        match lang {
            Some(lang) => one_line(lang),
            None => Seq::empty(),
        }) + code_lines(code, spans) + one_line(Seq::empty()),
{
    let rows = code_rows(code, spans).map_values(|row: RowV| row_text(row));
    if let Some(lines) = spans {
        assert forall|k: int| 0 <= k < rows.len() implies rows[k] == code_lines(code, spans)[k] by {
            lemma_span_pieces_text(lines[k]);
        }
    }
    assert(rows =~= code_lines(code, spans));
    let panel = ElementV::Panel {
        bg: SHADE,
        bars: None,
        px: 4,
        py: 1,
        rows: code_rows(code, spans),
    };
    assert(element_lines(empty_row()) =~= one_line(Seq::empty()));
    match lang {
        Some(lang) => {
            let name = text_row(lang, seq![Attr::Dim, Attr::Italic]);
            lemma_lines_of_few(empty_row(), name, panel, empty_row());
        },
        None => {
            lemma_lines_of_few(empty_row(), panel, empty_row(), panel);
        },
    }
    assert(elements_lines(code_block_elements(lang, code, spans)) =~= one_line(Seq::empty()) + (
    match lang {
        Some(lang) => one_line(lang),
        None => Seq::empty(),
    }) + rows + one_line(Seq::empty()));
}

/// What the row of a diagram without an image reads, and that one with an image is drawn.
pub proof fn law_diagram_without_image_is_noted(index: usize, source: Seq<char>, image: ImageV)
    ensures
        mermaid_elements(index, source, Some(image)) == seq![ElementV::Diagram(index)],
        source.len() == 0 ==> elements_lines(mermaid_elements(index, source, None)) == one_line(
            "  mermaid (empty)"@,
        ),
        source.len() > 0 ==> elements_lines(mermaid_elements(index, source, None)) == one_line(
            "  ⏳ rendering mermaid..."@,
        ),
{
    let note = seq![Attr::Dim, Attr::Italic];
    let empty = text_row("  mermaid (empty)"@, note);
    let waiting = text_row("  ⏳ rendering mermaid..."@, note);
    lemma_lines_of_few(empty, empty, empty, empty);
    lemma_lines_of_few(waiting, waiting, waiting, waiting);
}

/// The index of a block has no part in what its rows read.
proof fn lemma_lines_of_any_index(
    i: usize,
    j: usize,
    block: BlockV,
    spans: BlockSpansV,
    width: nat,
)
    ensures
        elements_lines(block_elements(i, block, spans, width)) == elements_lines(
            block_elements(j, block, spans, width),
        ),
{
    if block is Mermaid {
        let a = ElementV::Diagram(i);
        let b = ElementV::Diagram(j);
        lemma_lines_of_few(a, a, a, a);
        lemma_lines_of_few(b, b, b, b);
    }
}

/// The rows of a document of two parts read as those of the first part, an empty row and those of
/// the second part.
pub proof fn law_rows_of_two_parts(
    a: Seq<BlockV>,
    x: Seq<BlockSpansV>,
    b: Seq<BlockV>,
    y: Seq<BlockSpansV>,
    cols: u16,
)
    requires
        a.len() > 0,
        b.len() > 0,
        x.len() == a.len(),
        y.len() == b.len(),
    ensures
        elements_lines(document_elements(a + b, x + y, cols)) == elements_lines(
            document_elements(a, x, cols),
        ) + one_line(Seq::empty()) + elements_lines(document_elements(b, y, cols)),
    decreases b.len(),
{
    let all = a + b;
    let spans = x + y;
    let width = padding(cols as nat, 10);
    let index = (all.len() - 1) as usize;
    assert(all.drop_last() =~= a + b.drop_last());
    assert(spans.drop_last() =~= x + y.drop_last());
    let last = block_elements(index, b.last(), y.last(), width);
    let before = document_elements(all.drop_last(), spans.drop_last(), cols);
    let gap = before.push(empty_row());
    lemma_lines_of_two_runs(gap, last);
    assert(gap.drop_last() =~= before);
    assert(element_lines(empty_row()) =~= one_line(Seq::empty()));
    if b.len() == 1 {
        assert(all.drop_last() =~= a);
        assert(spans.drop_last() =~= x);
        lemma_lines_of_any_index(index, 0, b[0], y[0], width);
    } else {
        let z = (b.len() - 1) as usize;
        let inner = document_elements(b.drop_last(), y.drop_last(), cols);
        let theirs = inner.push(empty_row());
        law_rows_of_two_parts(a, x, b.drop_last(), y.drop_last(), cols);
        lemma_lines_of_any_index(index, z, b.last(), y.last(), width);
        lemma_lines_of_two_runs(theirs, block_elements(z, b.last(), y.last(), width));
        assert(theirs.drop_last() =~= inner);
        assert(elements_lines(document_elements(all, spans, cols)) =~= elements_lines(
            document_elements(a, x, cols),
        ) + one_line(Seq::empty()) + elements_lines(document_elements(b, y, cols)));
    }
}

/// A document of one block reads as the block in the width of the terminal but for ten columns, and
/// one without blocks is empty.
pub proof fn law_rows_of_one_block(block: BlockV, spans: BlockSpansV, cols: u16)
    ensures
        document_elements(seq![block], seq![spans], cols) == block_elements(
            0,
            block,
            spans,
            if cols >= 10 {
                (cols - 10) as nat
            } else {
                0
            },
        ),
        document_elements(Seq::empty(), Seq::empty(), cols) == Seq::<ElementV>::empty(),
{
}

/// The indices of the blocks whose images elements show.
pub open spec fn drawn_indices(elements: Seq<ElementV>) -> Seq<usize>
    decreases elements.len(),
{
    if elements.len() == 0 {
        Seq::empty()
    } else {
        match elements.last() {
            ElementV::Diagram(index) => drawn_indices(elements.drop_last()).push(index),
            _ => drawn_indices(elements.drop_last()),
        }
    }
}

/// The indices of the diagrams that have an image.
pub open spec fn imaged_indices(blocks: Seq<BlockV>) -> Seq<usize>
    decreases blocks.len(),
{
    if blocks.len() == 0 {
        Seq::empty()
    } else {
        match blocks.last() {
            BlockV::Mermaid { source: _, image: Some(_) } => imaged_indices(
                blocks.drop_last(),
            ).push((blocks.len() - 1) as usize),
            _ => imaged_indices(blocks.drop_last()),
        }
    }
}

/// The images of two runs of elements are those of the first and then those of the second.
proof fn lemma_drawn_of_two_runs(a: Seq<ElementV>, b: Seq<ElementV>)
    ensures
        drawn_indices(a + b) == drawn_indices(a) + drawn_indices(b),
    decreases b.len(),
{
    if b.len() == 0 {
        assert(a + b =~= a);
        assert(drawn_indices(a) + drawn_indices(b) =~= drawn_indices(a));
    } else {
        assert((a + b).drop_last() =~= a + b.drop_last());
        lemma_drawn_of_two_runs(a, b.drop_last());
        assert(drawn_indices(a + b) =~= drawn_indices(a) + drawn_indices(b));
    }
}

/// Elements none of which shows an image show none.
proof fn lemma_nothing_drawn(elements: Seq<ElementV>)
    requires
        forall|i: int| 0 <= i < elements.len() ==> !(#[trigger] elements[i] is Diagram),
    ensures
        drawn_indices(elements) == Seq::<usize>::empty(),
    decreases elements.len(),
{
    if elements.len() > 0 {
        let rest = elements.drop_last();
        assert forall|i: int| 0 <= i < rest.len() implies !(#[trigger] rest[i] is Diagram) by {
            assert(rest[i] == elements[i]);
        }
        lemma_nothing_drawn(rest);
        assert(!(elements[elements.len() - 1] is Diagram));
    }
}

/// Every image is drawn, once and in order: the elements of a document show exactly the images of
/// the diagrams that have one.
pub proof fn law_every_image_is_drawn(blocks: Seq<BlockV>, spans: Seq<BlockSpansV>, cols: u16)
    requires
        spans.len() == blocks.len(),
    ensures
        drawn_indices(document_elements(blocks, spans, cols)) == imaged_indices(blocks),
    decreases blocks.len(),
{
    if blocks.len() > 0 {
        let width = padding(cols as nat, 10);
        let index = (blocks.len() - 1) as usize;
        let last = block_elements(index, blocks.last(), spans.last(), width);
        let before = document_elements(blocks.drop_last(), spans.drop_last(), cols);
        law_every_image_is_drawn(blocks.drop_last(), spans.drop_last(), cols);
        if blocks.last() matches BlockV::Mermaid { source: _, image: Some(_) } {
            assert(last =~= seq![ElementV::Diagram(index)]);
            assert(last.drop_last() =~= Seq::empty());
            assert(drawn_indices(last.drop_last()) =~= Seq::empty());
            assert(drawn_indices(last) =~= seq![index]);
        } else {
            lemma_nothing_drawn(last);
        }
        if blocks.len() == 1 {
            assert(blocks.drop_last() =~= Seq::empty());
            assert(imaged_indices(blocks.drop_last()) =~= Seq::empty());
            assert(drawn_indices(last) =~= imaged_indices(blocks));
        } else {
            let gap = before.push(empty_row());
            assert(gap.drop_last() =~= before);
            lemma_drawn_of_two_runs(gap, last);
            assert(drawn_indices(gap + last) =~= imaged_indices(blocks));
        }
    }
}

/// How headings, items, quotations, formulas, rules and code are styled, by entries of the
/// 256-color palette, whatever their text.
pub proof fn law_elements_are_styled_by_kind(
    level: u8,
    text: Seq<char>,
    width: nat,
    spans: BlockSpansV,
)
    ensures
        ({
            let all = heading_elements(level, text, width);
            let signs = repeated('#', level as nat) + seq![' '];
            let title = |attrs: Seq<Attr>|
                ElementV::Row(
                    RowV::Line(
                        seq![
                            PieceV::Text { text: signs, attrs: seq![Attr::Fg(245)] },
                            PieceV::Text { text, attrs },
                        ],
                    ),
                );
            let rule = |c: char, n: nat|
                ElementV::Row(
                    RowV::Single(
                        PieceV::Text { text: repeated(c, n), attrs: seq![Attr::Fg(245)] },
                    ),
                );
            &&& level == 1 ==> all[1] == title(seq![Attr::Bold, Attr::Fg(111)]) && all[2] == rule(
                '━',
                width,
            )
            &&& level == 2 ==> all[1] == title(seq![Attr::Bold, Attr::Fg(114)]) && all[2] == rule(
                '─',
                width * 2 / 3,
            )
            &&& level == 3 ==> all[1] == title(seq![Attr::Bold, Attr::Fg(222)])
            &&& level == 4 ==> all[0] == title(seq![Attr::Bold])
            &&& level == 0 || level > 4 ==> all[0] == title(seq![Attr::Dim])
            &&& hr_elements(width)[1] == rule('─', width)
        }),
        item_element(text) == ElementV::Row(
            RowV::Line(
                seq![
                    PieceV::Text { text: seq![' ', ' ', '•', ' '], attrs: seq![Attr::Fg(245)] },
                    PieceV::Text { text, attrs: seq![] },
                ],
            ),
        ),
        blockquote_element(text) == (ElementV::Panel {
            bg: 234,
            bars: Some(245),
            px: 2,
            py: 1,
            rows: seq![
                RowV::Single(PieceV::Text { text, attrs: seq![Attr::Italic, Attr::Dim] }),
            ],
        }),
        math_elements(text, true)[1] == ElementV::Row(
            RowV::Single(
                PieceV::Text { text: math_text(text), attrs: seq![Attr::Fg(183), Attr::Center] },
            ),
        ),
        math_elements(text, false)[0] == ElementV::Row(
            RowV::Single(PieceV::Text { text: math_text(text), attrs: seq![Attr::Fg(183)] }),
        ),
        code_block_elements(Some(text), text, spans)[1] == ElementV::Row(
            RowV::Single(PieceV::Text { text, attrs: seq![Attr::Dim, Attr::Italic] }),
        ),
        code_block_elements(None, text, spans)[1] matches ElementV::Panel { bg, bars, px, py, rows }
            && bg == 234 && bars is None && px == 4 && py == 1 && (spans is None ==> rows
            == lines_of(trimmed_end(text)).map_values(
            |line: Seq<char>|
                RowV::Single(PieceV::Text { text: line, attrs: seq![Attr::Fg(210)] }),
        )),
{
    reveal_strlit(" ");
    assert(" "@ =~= seq![' ']);
    reveal_strlit("  • ");
    assert("  • "@ =~= seq![' ', ' ', '•', ' ']);
}

/// Highlighted spans are drawn as they are: each line of code is a row of its spans, unless it has
/// none.
pub proof fn law_spans_are_drawn_as_they_are(
    lang: Option<Seq<char>>,
    code: Seq<char>,
    lines: Seq<Seq<CodeSpanV>>,
    k: int,
    j: int,
)
    requires
        0 <= k < lines.len(),
        0 <= j < lines[k].len(),
    ensures
        code_rows(code, Some(lines)).len() == lines.len(),
        code_rows(code, Some(lines))[k] matches RowV::Line(pieces) && pieces.len()
            == lines[k].len() && pieces[j] == PieceV::Code(lines[k][j]),
{
}

/// How the cells of a table are styled: headers are bold and blue, rules gray, cells bare.
pub proof fn law_table_is_styled_by_row(
    headers: Seq<Seq<char>>,
    rows: Seq<Seq<Seq<char>>>,
    i: int,
    r: int,
    c: int,
)
    requires
        0 <= i < headers.len(),
        0 <= r < rows.len(),
        0 <= c < rows[r].len(),
    ensures
        ({
            let all = table_elements(headers, rows);
            &&& all.len() == rows.len() + 2
            &&& all[0] matches ElementV::Row(RowV::Line(pieces)) && pieces[i] matches PieceV::Text {
                text: _,
                attrs,
            } && attrs == seq![Attr::Bold, Attr::Fg(111)]
            &&& all[1] matches ElementV::Row(RowV::Line(pieces)) && pieces[i] matches PieceV::Text {
                text: _,
                attrs,
            } && attrs == seq![Attr::Fg(245)]
            &&& all[r + 2] matches ElementV::Row(RowV::Line(pieces)) && pieces[c]
                matches PieceV::Text { text: _, attrs } && attrs == Seq::<Attr>::empty()
        }),
{
    let all = table_elements(headers, rows);
    assert(all[r + 2] == ElementV::Row(RowV::Line(cell_pieces(headers, rows, rows[r]))));
}

/// A block is drawn by its kind and with all of its parts; spans have a part in code alone, and the
/// index in a diagram alone.
pub proof fn law_block_is_drawn_by_kind(
    index: usize,
    block: BlockV,
    spans: BlockSpansV,
    width: nat,
)
    ensures
        ({
            let made = block_elements(index, block, spans, width);
            match block {
                BlockV::Heading { level, text } => made == heading_elements(level, text, width),
                BlockV::Paragraph { inlines } => made == paragraph_elements(inlines),
                BlockV::CodeBlock { lang, code } => made == code_block_elements(lang, code, spans),
                BlockV::Mermaid { source, image } => made == mermaid_elements(index, source, image),
                BlockV::Math { source, display } => made == math_elements(source, display),
                BlockV::List { items } => made == items.map_values(
                    |item: Seq<char>| item_element(item),
                ),
                BlockV::BlockQuote { text } => made == seq![blockquote_element(text)],
                BlockV::ThematicBreak => made == hr_elements(width),
                BlockV::Table { headers, rows } => made == table_elements(headers, rows),
            }
        }),
        !(block is CodeBlock) ==> block_elements(index, block, spans, width) == block_elements(
            index,
            block,
            None,
            width,
        ),
        !(block is Mermaid) ==> block_elements(index, block, spans, width) == block_elements(
            0,
            block,
            spans,
            width,
        ),
{
}

/// One more block of a document is drawn behind the others and an empty row, by its own index and
/// in the width of the terminal but for ten columns.
pub proof fn law_document_of_one_more_block(
    blocks: Seq<BlockV>,
    spans: Seq<BlockSpansV>,
    block: BlockV,
    of_block: BlockSpansV,
    cols: u16,
)
    requires
        0 < blocks.len() < usize::MAX,
        spans.len() == blocks.len(),
    ensures
        document_elements(blocks.push(block), spans.push(of_block), cols) == document_elements(
            blocks,
            spans,
            cols,
        ).push(
            ElementV::Row(RowV::Single(PieceV::Text { text: Seq::empty(), attrs: Seq::empty() })),
        ) + block_elements(
            blocks.len() as usize,
            block,
            of_block,
            if cols >= 10 {
                (cols - 10) as nat
            } else {
                0
            },
        ),
{
    assert(blocks.push(block).drop_last() =~= blocks);
    assert(spans.push(of_block).drop_last() =~= spans);
}

/// The panel of a code block is the same with a language and without one, and notes on diagrams are
/// dim and in italics.
pub proof fn law_panels_and_notes(
    lang: Seq<char>,
    code: Seq<char>,
    spans: BlockSpansV,
    index: usize,
)
    ensures
        ({
            let with = code_block_elements(Some(lang), code, spans);
            let without = code_block_elements(None, code, spans);
            let empty = ElementV::Row(
                RowV::Single(PieceV::Text { text: Seq::empty(), attrs: Seq::empty() }),
            );
            &&& with.len() == 4 && without.len() == 3
            &&& with[2] == without[1]
            &&& with[0] == empty && with[3] == empty
            &&& without[0] == empty && without[2] == empty
        }),
        mermaid_elements(index, Seq::empty(), None) == seq![
            ElementV::Row(
                RowV::Single(
                    PieceV::Text {
                        text: "  mermaid (empty)"@,
                        attrs: seq![Attr::Dim, Attr::Italic],
                    },
                ),
            ),
        ],
        code.len() > 0 ==> mermaid_elements(index, code, None) == seq![
            ElementV::Row(
                RowV::Single(
                    PieceV::Text {
                        text: "  ⏳ rendering mermaid..."@,
                        attrs: seq![Attr::Dim, Attr::Italic],
                    },
                ),
            ),
        ],
{
}

} // verus!
