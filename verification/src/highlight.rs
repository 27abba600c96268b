//! Syntax highlighting: slt's highlighter, with the colors that it puts on a span of code.
use crate::block::{Block, BlockV};
use crate::grammar::{
    highlightable, is_guarded, is_highlightable, law_ordinary_code_is_taken,
};
use crate::highlight::Color::{
    Black, Blue, Cyan, DarkGray, Green, Indexed, LightBlue, LightCyan, LightGreen, LightMagenta,
    LightRed, LightWhite, LightYellow, Magenta, Other, Red, Reset, Rgb, White, Yellow,
};
use crate::text::{owned, split_lines, trim_end, trimmed_end};
use slt::syntax::highlight_code;
use slt::Color::{
    Black as SltBlack, Blue as SltBlue, Cyan as SltCyan, DarkGray as SltDarkGray,
    Green as SltGreen, Indexed as SltIndexed, LightBlue as SltLightBlue, LightCyan as SltLightCyan,
    LightGreen as SltLightGreen, LightMagenta as SltLightMagenta, LightRed as SltLightRed,
    LightWhite as SltLightWhite, LightYellow as SltLightYellow, Magenta as SltMagenta,
    Red as SltRed, Reset as SltReset, Rgb as SltRgb, White as SltWhite, Yellow as SltYellow,
};
use slt::Theme;
use vstd::prelude::*;

verus! {

/// A terminal color: one of the named ones, an entry of the 256-color palette or a 24-bit color.
/// `Other` stands for colors that slt may get.
#[derive(Debug, Clone, Copy, PartialEq, Eq, Structural)]
pub enum Color {
    Rgb(u8, u8, u8),
    Indexed(u8),
    Reset,
    Black,
    Red,
    Green,
    Yellow,
    Blue,
    Magenta,
    Cyan,
    White,
    DarkGray,
    LightRed,
    LightGreen,
    LightYellow,
    LightBlue,
    LightMagenta,
    LightCyan,
    LightWhite,
    Other,
}

/// A span of code in one style; the modifiers are slt's bits. The highlighter sets no background.
#[derive(Debug)]
pub struct CodeSpan {
    pub text: String,
    pub fg: Option<Color>,
    pub modifiers: u8,
}

/// The mathematical value of a [`CodeSpan`].
pub struct CodeSpanV {
    pub text: Seq<char>,
    pub fg: Option<Color>,
    pub modifiers: u8,
}

impl DeepView for CodeSpan {
    type V = CodeSpanV;

    open spec fn deep_view(&self) -> CodeSpanV {
        CodeSpanV { text: self.text@, fg: self.fg, modifiers: self.modifiers }
    }
}

impl Clone for CodeSpan {
    fn clone(&self) -> (r: Self)
        ensures
            r.deep_view() == self.deep_view(),
    {
        CodeSpan { text: owned(self.text.as_str()), fg: self.fg, modifiers: self.modifiers }
    }
}

/// The lines of spans of a code block that was highlighted; `None` for one that was not.
pub type BlockSpans = Option<Vec<Vec<CodeSpan>>>;

/// The mathematical value of [`BlockSpans`].
pub type BlockSpansV = Option<Seq<Seq<CodeSpanV>>>;

/// The text of the spans of a line.
pub open spec fn line_text(spans: Seq<CodeSpanV>) -> Seq<char>
    decreases spans.len(),
{
    if spans.len() == 0 {
        Seq::empty()
    } else {
        line_text(spans.drop_last()) + spans.last().text
    }
}

/// Whether lines of spans hold the text of a code and nothing else.
pub open spec fn holds_code(lines: Seq<Seq<CodeSpanV>>, code: Seq<char>) -> bool {
    lines.map_values(|line: Seq<CodeSpanV>| line_text(line)) == split_lines(code)
}

/// Whether the highlighter knows a language by this name.
pub open spec fn is_known_language(lang: Seq<char>) -> bool {
    ||| lang == "rust"@ || lang == "rs"@
    ||| lang == "python"@ || lang == "py"@
    ||| lang == "javascript"@ || lang == "js"@ || lang == "jsx"@
    ||| lang == "go"@ || lang == "golang"@
    ||| lang == "bash"@ || lang == "sh"@ || lang == "shell"@ || lang == "zsh"@
    ||| lang == "json"@ || lang == "jsonc"@
    ||| lang == "toml"@
    ||| lang == "c"@ || lang == "h"@
    ||| lang == "cpp"@ || lang == "c++"@ || lang == "cxx"@ || lang == "cc"@ || lang == "hpp"@
    ||| lang == "typescript"@ || lang == "ts"@
    ||| lang == "tsx"@
    ||| lang == "java"@
    ||| lang == "ruby"@ || lang == "rb"@
    ||| lang == "css"@
    ||| lang == "html"@ || lang == "htm"@
    ||| lang == "yaml"@ || lang == "yml"@
}

/// Whether a language is highlighted without asking for classes of characters.
pub open spec fn ignores_locale(lang: Seq<char>) -> bool {
    ||| lang == "python"@ || lang == "py"@
    ||| lang == "go"@ || lang == "golang"@
    ||| lang == "json"@ || lang == "jsonc"@
    ||| lang == "toml"@
    ||| lang == "c"@ || lang == "h"@
    ||| lang == "java"@
    ||| lang == "yaml"@ || lang == "yml"@
}

/// The color of names, operators and other code in the dark theme or in the light one.
pub open spec fn text_color(dark: bool) -> Color {
    if dark {
        White
    } else {
        Rgb(15, 23, 42)
    }
}

/// The color of comments and punctuation in the dark theme or in the light one.
pub open spec fn dim_color(dark: bool) -> Color {
    if dark {
        Indexed(245)
    } else {
        Rgb(100, 116, 139)
    }
}

/// Whether code has a color in the dark theme or in the light one. No color is in both.
pub open spec fn is_theme_color(color: Color, dark: bool) -> bool {
    ||| color == text_color(dark)
    ||| color == dim_color(dark)
    ||| dark && (color == Rgb(198, 120, 221)
        || color == Rgb(152, 195, 121)
        || color == Rgb(209, 154, 102)
        || color == Rgb(97, 175, 239)
        || color == Rgb(86, 182, 194)
        || color == Rgb(229, 192, 123)
        || color == Rgb(224, 108, 117))
    ||| !dark && (color == Rgb(166, 38, 164)
        || color == Rgb(80, 161, 79)
        || color == Rgb(152, 104, 1)
        || color == Rgb(64, 120, 242)
        || color == Rgb(1, 132, 188))
}

/// Slt's bit for italic text.
pub const ITALIC: u8 = 4;

/// Whether a span is styled as in the dark theme or as in the light one: in one of its colors and,
/// at most for what is dim, in italics.
pub open spec fn is_theme_span(span: CodeSpanV, dark: bool) -> bool {
    &&& span.fg matches Some(color) && is_theme_color(color, dark)
    &&& span.modifiers == 0 || (span.modifiers == ITALIC && span.fg == Some(dim_color(dark)))
}

/// Whether every span is styled as in the dark theme or as in the light one.
pub open spec fn is_in_theme(lines: Seq<Seq<CodeSpanV>>, dark: bool) -> bool {
    forall|i: int, j: int|
        0 <= i < lines.len() && 0 <= j < lines[i].len() ==> is_theme_span(
            #[trigger] lines[i][j],
            dark,
        )
}

/// The lines of spans that slt's highlighter makes of a code in a language, in the colors of the
/// dark theme or of the light one. The locale stands for the character classes of the C library
/// that the process has.
pub uninterp spec fn highlighted(
    code: Seq<char>,
    lang: Seq<char>,
    dark: bool,
    locale: int,
) -> BlockSpansV;

/// `slt::syntax::highlight_code` with `slt::Theme::dark()` or `slt::Theme::light()`. It returns
/// lines exactly for the languages that it knows. Their spans are the code, cut at its line feeds:
/// it copies the code from its start to its end and drops nothing but the line feeds. Every span is
/// in a style of the theme. Which part of the code gets which style is a function of the code, the
/// language, the theme and the classes that the C library gives to characters in the locale of the
/// process. Some languages do not ask for these; for the others nothing is said of the locale. The
/// grammars of Bash, Ruby, Python and YAML have undefined behavior or abort on some code, which is
/// left out.
#[verifier::external_body]
fn highlight(code: &str, lang: &str, dark: bool) -> (lines: Option<Vec<Vec<CodeSpan>>>)
    requires
        is_highlightable(code@, lang@),
    ensures
        exists|locale: int|
            lines.deep_view() == #[trigger] highlighted(code@, lang@, dark, locale),
        ignores_locale(lang@) ==> lines.deep_view() == highlighted(code@, lang@, dark, 0),
        lines is Some <==> is_known_language(lang@),
        lines.deep_view() matches Some(lines) ==> holds_code(lines, code@) && is_in_theme(
            lines,
            dark,
        ),
{
    let theme = [Theme::light(), Theme::dark()][dark as usize];
    Some(highlight_code(code, lang, &theme)?.into_iter().map(|line| line.into_iter().map(|(text, style)| CodeSpan {
        text,
        fg: style.fg.map(|color| match color {
            SltRgb(r, g, b) => Rgb(r, g, b), SltIndexed(n) => Indexed(n), SltReset => Reset,
            SltBlack => Black, SltRed => Red, SltGreen => Green, SltYellow => Yellow,
            SltBlue => Blue, SltMagenta => Magenta, SltCyan => Cyan, SltWhite => White,
            SltDarkGray => DarkGray, SltLightRed => LightRed, SltLightGreen => LightGreen,
            SltLightYellow => LightYellow, SltLightBlue => LightBlue,
            SltLightMagenta => LightMagenta, SltLightCyan => LightCyan,
            SltLightWhite => LightWhite, _ => Other
        }),
        modifiers: style.modifiers.0
    }).collect()).collect())
}

/// What the highlighter may make of a code in a language that it can take: lines of spans exactly
/// if it knows the language. They hold the code in styles of the theme, and are what it makes of
/// that code in that language and that theme in some locale, and in any one where it asks for none.
pub open spec fn is_outcome(
    code: Seq<char>,
    lang: Seq<char>,
    dark: bool,
    spans: BlockSpansV,
) -> bool {
    &&& exists|locale: int| spans == #[trigger] highlighted(code, lang, dark, locale)
    &&& ignores_locale(lang) ==> spans == highlighted(code, lang, dark, 0)
    &&& spans is Some <==> is_known_language(lang)
    &&& spans matches Some(lines) ==> holds_code(lines, code) && is_in_theme(lines, dark)
}

/// What the highlighter may make of a code block: nothing without a language, nor of code that it
/// cannot take; else what it makes of the code without the white space at its end.
pub open spec fn is_highlighting(
    lang: Option<Seq<char>>,
    code: Seq<char>,
    dark: bool,
    spans: BlockSpansV,
) -> bool {
    let trimmed = trimmed_end(code);
    match lang {
        Some(lang) => if is_highlightable(trimmed, lang) {
            is_outcome(trimmed, lang, dark, spans)
        } else {
            spans is None
        },
        None => spans is None,
    }
}

/// What the highlighter may make of a block: nothing unless it is a code block.
pub open spec fn is_block_highlighting(block: BlockV, dark: bool, spans: BlockSpansV) -> bool {
    match block {
        BlockV::CodeBlock { lang, code } => is_highlighting(lang, code, dark, spans),
        _ => spans is None,
    }
}

/// What the highlighter may make of the blocks of a document.
pub open spec fn is_document_highlighting(
    blocks: Seq<BlockV>,
    dark: bool,
    spans: Seq<BlockSpansV>,
) -> bool {
    &&& spans.len() == blocks.len()
    &&& forall|i: int|
        0 <= i < blocks.len() ==> is_block_highlighting(blocks[i], dark, #[trigger] spans[i])
}

/// Highlights a code block in the colors of the dark theme or of the light one, where that can be
/// done.
pub fn highlight_block(lang: Option<&str>, code: &str, dark: bool) -> (spans: BlockSpans)
    ensures
        is_highlighting(lang.deep_view(), code@, dark, spans.deep_view()),
        spans is Some <==> lang is Some && is_known_language(lang->0@) && is_highlightable(
            trimmed_end(code@),
            lang->0@,
        ),
{
    match lang {
        Some(lang) => {
            let trimmed = trim_end(code);
            if highlightable(trimmed.as_str(), lang) {
                highlight(trimmed.as_str(), lang, dark)
            } else {
                None
            }
        },
        None => None,
    }
}

/// Highlights the code blocks among the blocks of a document in the colors of the dark theme or of
/// the light one.
pub fn highlight_blocks(blocks: &[Block], dark: bool) -> (spans: Vec<BlockSpans>)
    ensures
        is_document_highlighting(blocks.deep_view(), dark, spans.deep_view()),
        spans@.len() == blocks@.len(),
{
    let mut spans: Vec<BlockSpans> = Vec::new();
    let mut i: usize = 0;
    while i < blocks.len()
        invariant
            i <= blocks@.len(),
            spans@.len() == i,
            forall|k: int|
                0 <= k < i ==> is_block_highlighting(
                    blocks.deep_view()[k],
                    dark,
                    #[trigger] spans.deep_view()[k],
                ),
        decreases blocks@.len() - i,
    {
        let ghost before = spans.deep_view();
        let of_block = match &blocks[i] {
            Block::CodeBlock { lang, code } => {
                let lang: Option<&str> = match lang {
                    Some(lang) => Some(lang.as_str()),
                    None => None,
                };
                highlight_block(lang, code.as_str(), dark)
            },
            _ => None,
        };
        let ghost added = of_block.deep_view();
        assert(is_block_highlighting(blocks.deep_view()[i as int], dark, added));
        spans.push(of_block);
        assert(spans.deep_view() =~= before.push(added));
        i += 1;
    }
    spans
}

/// The two themes share no style, so spans show in which theme a code was highlighted.
pub proof fn law_themes_share_no_style(span: CodeSpanV, dark: bool)
    requires
        is_theme_span(span, dark),
    ensures
        !is_theme_span(span, !dark),
{
}

/// Code in a language that the highlighter knows is highlighted wherever it stands in a document:
/// if it can be taken, there are spans, they hold the code without the white space at its end, and
/// they are in the theme. Code without a language, or in one that is not known, has none, and
/// neither has any other block.
pub proof fn law_known_code_is_highlighted(
    blocks: Seq<BlockV>,
    dark: bool,
    spans: Seq<BlockSpansV>,
    i: int,
)
    requires
        is_document_highlighting(blocks, dark, spans),
        0 <= i < blocks.len(),
    ensures
        spans.len() == blocks.len(),
        blocks[i] matches BlockV::CodeBlock { lang: Some(lang), code } ==> {
            &&& spans[i] is Some <==> is_known_language(lang) && is_highlightable(
                trimmed_end(code),
                lang,
            )
            &&& spans[i] matches Some(lines) ==> {
                &&& lines.map_values(|line: Seq<CodeSpanV>| line_text(line)) == split_lines(
                    trimmed_end(code),
                )
                &&& forall|k: int, j: int|
                    0 <= k < lines.len() && 0 <= j < lines[k].len() ==> is_theme_span(
                        #[trigger] lines[k][j],
                        dark,
                    )
            }
        },
        blocks[i] matches BlockV::CodeBlock { lang: None, code: _ } ==> spans[i] is None,
        !(blocks[i] is CodeBlock) ==> spans[i] is None,
{
    assert(is_block_highlighting(blocks[i], dark, spans[i]));
}

/// Code in these languages is always highlighted, whatever it is.
pub proof fn law_most_languages_are_always_highlighted(
    lang: Seq<char>,
    code: Seq<char>,
    dark: bool,
    spans: BlockSpansV,
)
    requires
        is_highlighting(Some(lang), code, dark, spans),
        set![
            "rust"@,
            "rs"@,
            "javascript"@,
            "js"@,
            "jsx"@,
            "go"@,
            "golang"@,
            "json"@,
            "jsonc"@,
            "toml"@,
            "c"@,
            "h"@,
            "cpp"@,
            "c++"@,
            "cxx"@,
            "cc"@,
            "hpp"@,
            "typescript"@,
            "ts"@,
            "tsx"@,
            "java"@,
            "css"@,
            "html"@,
            "htm"@,
        ].contains(lang),
    ensures
        spans is Some,
        holds_code(spans->0, trimmed_end(code)),
        is_in_theme(spans->0, dark),
{
    assert(!is_guarded(lang)) by {
        reveal_strlit("rust");
        reveal_strlit("rs");
        reveal_strlit("javascript");
        reveal_strlit("js");
        reveal_strlit("jsx");
        reveal_strlit("go");
        reveal_strlit("golang");
        reveal_strlit("json");
        reveal_strlit("jsonc");
        reveal_strlit("toml");
        reveal_strlit("c");
        reveal_strlit("h");
        reveal_strlit("cpp");
        reveal_strlit("c++");
        reveal_strlit("cxx");
        reveal_strlit("cc");
        reveal_strlit("hpp");
        reveal_strlit("typescript");
        reveal_strlit("ts");
        reveal_strlit("tsx");
        reveal_strlit("java");
        reveal_strlit("css");
        reveal_strlit("html");
        reveal_strlit("htm");
        reveal_strlit("bash");
        reveal_strlit("sh");
        reveal_strlit("shell");
        reveal_strlit("zsh");
        reveal_strlit("ruby");
        reveal_strlit("rb");
        reveal_strlit("python");
        reveal_strlit("py");
        reveal_strlit("yaml");
        reveal_strlit("yml");
        assert("rust"@.len() == 4);
        assert("rs"@.len() == 2);
        assert("javascript"@.len() == 10);
        assert("js"@.len() == 2);
        assert("jsx"@.len() == 3);
        assert("go"@.len() == 2);
        assert("golang"@.len() == 6);
        assert("json"@.len() == 4);
        assert("jsonc"@.len() == 5);
        assert("toml"@.len() == 4);
        assert("c"@.len() == 1);
        assert("h"@.len() == 1);
        assert("cpp"@.len() == 3);
        assert("c++"@.len() == 3);
        assert("cxx"@.len() == 3);
        assert("cc"@.len() == 2);
        assert("hpp"@.len() == 3);
        assert("typescript"@.len() == 10);
        assert("ts"@.len() == 2);
        assert("tsx"@.len() == 3);
        assert("java"@.len() == 4);
        assert("css"@.len() == 3);
        assert("html"@.len() == 4);
        assert("htm"@.len() == 3);
        assert("bash"@.len() == 4);
        assert("sh"@.len() == 2);
        assert("shell"@.len() == 5);
        assert("zsh"@.len() == 3);
        assert("ruby"@.len() == 4);
        assert("rb"@.len() == 2);
        assert("python"@.len() == 6);
        assert("py"@.len() == 2);
        assert("yaml"@.len() == 4);
        assert("yml"@.len() == 3);
        assert("rust"@[0] == 'r');
        assert("rust"@[1] == 'u');
        assert("rust"@[2] == 's');
        assert("rs"@[0] == 'r');
        assert("rs"@[1] == 's');
        assert("js"@[0] == 'j');
        assert("js"@[1] == 's');
        assert("jsx"@[0] == 'j');
        assert("jsx"@[1] == 's');
        assert("jsx"@[2] == 'x');
        assert("go"@[0] == 'g');
        assert("go"@[1] == 'o');
        assert("golang"@[0] == 'g');
        assert("golang"@[1] == 'o');
        assert("golang"@[2] == 'l');
        assert("json"@[0] == 'j');
        assert("json"@[1] == 's');
        assert("json"@[2] == 'o');
        assert("jsonc"@[0] == 'j');
        assert("jsonc"@[1] == 's');
        assert("jsonc"@[2] == 'o');
        assert("toml"@[0] == 't');
        assert("toml"@[1] == 'o');
        assert("toml"@[2] == 'm');
        assert("cpp"@[0] == 'c');
        assert("cpp"@[1] == 'p');
        assert("cpp"@[2] == 'p');
        assert("c++"@[0] == 'c');
        assert("c++"@[1] == '+');
        assert("c++"@[2] == '+');
        assert("cxx"@[0] == 'c');
        assert("cxx"@[1] == 'x');
        assert("cxx"@[2] == 'x');
        assert("cc"@[0] == 'c');
        assert("cc"@[1] == 'c');
        assert("hpp"@[0] == 'h');
        assert("hpp"@[1] == 'p');
        assert("hpp"@[2] == 'p');
        assert("ts"@[0] == 't');
        assert("ts"@[1] == 's');
        assert("tsx"@[0] == 't');
        assert("tsx"@[1] == 's');
        assert("tsx"@[2] == 'x');
        assert("java"@[0] == 'j');
        assert("java"@[1] == 'a');
        assert("java"@[2] == 'v');
        assert("css"@[0] == 'c');
        assert("css"@[1] == 's');
        assert("css"@[2] == 's');
        assert("html"@[0] == 'h');
        assert("html"@[1] == 't');
        assert("html"@[2] == 'm');
        assert("htm"@[0] == 'h');
        assert("htm"@[1] == 't');
        assert("htm"@[2] == 'm');
        assert("bash"@[0] == 'b');
        assert("bash"@[1] == 'a');
        assert("bash"@[2] == 's');
        assert("sh"@[0] == 's');
        assert("sh"@[1] == 'h');
        assert("shell"@[0] == 's');
        assert("shell"@[1] == 'h');
        assert("shell"@[2] == 'e');
        assert("zsh"@[0] == 'z');
        assert("zsh"@[1] == 's');
        assert("zsh"@[2] == 'h');
        assert("ruby"@[0] == 'r');
        assert("ruby"@[1] == 'u');
        assert("ruby"@[2] == 'b');
        assert("rb"@[0] == 'r');
        assert("rb"@[1] == 'b');
        assert("python"@[0] == 'p');
        assert("python"@[1] == 'y');
        assert("python"@[2] == 't');
        assert("py"@[0] == 'p');
        assert("py"@[1] == 'y');
        assert("yaml"@[0] == 'y');
        assert("yaml"@[1] == 'a');
        assert("yaml"@[2] == 'm');
        assert("yml"@[0] == 'y');
        assert("yml"@[1] == 'm');
        assert("yml"@[2] == 'l');
    }
    law_ordinary_code_is_taken(trimmed_end(code), lang);
}

} // verus!
