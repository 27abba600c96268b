//! What a terminal shows of text with ANSI styling: everything but the sequences that set styles,
//! links and images. The laws say what is shown of a document in cat mode.
use crate::block::{ImageV, InlineV};
use crate::catmode::{
    bg_code, blockquote_text, box_row, box_width, cells_text, code_block_text, code_rows, color_rgb,
    fg_code, header_cell_text, header_row_text, heading_text, hr_text, inline_text, inlines_text,
    item_text, language_text, list_text, math_block_text, mermaid_text, no_image_text, plain_row,
    plain_rows, png_text, rows_text, rule_cell_text, rule_row_text, span_row, span_rows, span_text,
    spans_len, spans_text, table_text, BOLD, DIM, ITALIC, RESET, STRIKE, UNDERLINE,
};
use crate::highlight::{holds_code, is_highlighting, line_text, BlockSpansV, CodeSpanV, Color};
use crate::math::math_text;
use crate::png::{base64_of, png_of};
use crate::render::{cells_line, joined, shown_text, shown_texts};
use crate::table::{column_width, padded};
use crate::text::{
    byte_len, decimal, find_from, is_one_line, is_white, law_decimal_stands_for_the_number,
    law_without_newlines_drops_line_feeds, lemma_concat_assoc, lemma_find_from, lines_of, occurs_at,
    padding, repeated, split_lines, trimmed_end, without_cr, without_newlines,
};
use vstd::prelude::*;

verus! {

/// What stands behind the first `m`, which ends a style sequence.
pub open spec fn behind_style(s: Seq<char>) -> Seq<char>
    decreases s.len(),
{
    if s.len() == 0 {
        s
    } else if s[0] == 'm' {
        s.skip(1)
    } else {
        behind_style(s.skip(1))
    }
}

/// What stands behind the first bell, or the first escape and the character behind it, which end a
/// link or an image.
pub open spec fn behind_command(s: Seq<char>) -> Seq<char>
    decreases s.len(),
{
    if s.len() == 0 {
        s
    } else if s[0] == '\u{7}' {
        s.skip(1)
    } else if s[0] == '\u{1b}' {
        if s.len() > 1 {
            s.skip(2)
        } else {
            s.skip(1)
        }
    } else {
        behind_command(s.skip(1))
    }
}

/// What stands behind the end of a sequence is no longer than what it started in.
pub proof fn lemma_behind_is_shorter(s: Seq<char>)
    ensures
        behind_style(s).len() <= s.len(),
        behind_command(s).len() <= s.len(),
    decreases s.len(),
{
    if s.len() > 0 {
        lemma_behind_is_shorter(s.skip(1));
    }
}

/// What is shown of a text.
pub open spec fn visible(s: Seq<char>) -> Seq<char>
    decreases s.len(),
{
    proof {
        if s.len() > 1 {
            lemma_behind_is_shorter(s.skip(2));
        }
    }
    if s.len() == 0 {
        s
    } else if s[0] != '\u{1b}' {
        seq![s[0]] + visible(s.skip(1))
    } else if s.len() > 1 && s[1] == '[' {
        visible(behind_style(s.skip(2)))
    } else if s.len() > 1 && s[1] == ']' {
        visible(behind_command(s.skip(2)))
    } else {
        visible(s.skip(1))
    }
}

/// Whether a text holds no escape and no bell.
pub open spec fn is_clean(s: Seq<char>) -> bool {
    forall|i: int| 0 <= i < s.len() ==> #[trigger] s[i] != '\u{1b}' && s[i] != '\u{7}'
}

/// Whether `shown` is what is shown of `s`, whatever stands behind it.
#[verifier::opaque]
pub open spec fn shows(s: Seq<char>, shown: Seq<char>) -> bool {
    forall|rest: Seq<char>| visible(#[trigger] (s + rest)) == shown + visible(rest)
}

/// What is shown of two texts is what is shown of the first and then what is shown of the second.
proof fn lemma_shows_both(a: Seq<char>, x: Seq<char>, b: Seq<char>, y: Seq<char>)
    requires
        shows(a, x),
        shows(b, y),
    ensures
        shows(a + b, x + y),
{
    reveal(shows);
    assert forall|rest: Seq<char>| visible(#[trigger] (a + b + rest)) == x + y + visible(rest) by {
        assert(a + b + rest =~= a + (b + rest));
        assert(x + y + visible(rest) =~= x + (y + visible(rest)));
    }
}

/// A text that shows something behind which nothing is left out is shown so on its own.
proof fn lemma_shows_alone(s: Seq<char>, shown: Seq<char>)
    requires
        shows(s, shown),
    ensures
        visible(s) == shown,
{
    reveal(shows);
    let none = Seq::<char>::empty();
    assert(s + none =~= s);
    assert(visible(none) =~= none);
    assert(shown + none =~= shown);
}

/// A text without escapes is shown as it is.
proof fn lemma_clean_is_shown(s: Seq<char>)
    requires
        is_clean(s),
    ensures
        shows(s, s),
{
    reveal(shows);
    assert forall|rest: Seq<char>| visible(#[trigger] (s + rest)) == s + visible(rest) by {
        lemma_clean_before(s, rest);
    }
}

proof fn lemma_clean_before(s: Seq<char>, rest: Seq<char>)
    requires
        is_clean(s),
    ensures
        visible(s + rest) == s + visible(rest),
    decreases s.len(),
{
    let all = s + rest;
    if s.len() == 0 {
        assert(all =~= rest);
        assert(s + visible(rest) =~= visible(rest));
    } else {
        let tail = s.skip(1);
        assert forall|i: int| 0 <= i < tail.len() implies #[trigger] tail[i] != '\u{1b}' && tail[i]
            != '\u{7}' by {
            assert(tail[i] == s[i + 1]);
        }
        assert(all[0] == s[0]);
        assert(all.skip(1) =~= tail + rest);
        lemma_clean_before(tail, rest);
        assert(seq![s[0]] + (tail + visible(rest)) =~= s + visible(rest));
    }
}

/// Whether a text is a sequence that sets a style.
#[verifier::opaque]
pub open spec fn is_style(s: Seq<char>) -> bool {
    &&& s.len() >= 3
    &&& s[0] == '\u{1b}'
    &&& s[1] == '['
    &&& s.last() == 'm'
    &&& forall|i: int| 2 <= i < s.len() - 1 ==> #[trigger] s[i] != 'm'
}

/// Nothing is shown of a sequence that sets a style.
proof fn lemma_style_is_hidden(s: Seq<char>)
    requires
        is_style(s),
    ensures
        shows(s, Seq::empty()),
{
    reveal(is_style);
    reveal(shows);
    assert forall|rest: Seq<char>| visible(#[trigger] (s + rest)) == Seq::<char>::empty() + visible(
        rest,
    ) by {
        let all = s + rest;
        let inner = s.skip(2);
        assert(all.skip(2) =~= inner + rest);
        assert forall|i: int| 0 <= i < inner.len() - 1 implies #[trigger] inner[i] != 'm' by {
            assert(inner[i] == s[i + 2]);
        }
        lemma_behind_style(inner, rest);
        assert(Seq::<char>::empty() + visible(rest) =~= visible(rest));
    }
}

proof fn lemma_behind_style(inner: Seq<char>, rest: Seq<char>)
    requires
        inner.len() > 0,
        inner.last() == 'm',
        forall|i: int| 0 <= i < inner.len() - 1 ==> #[trigger] inner[i] != 'm',
    ensures
        behind_style(inner + rest) == rest,
    decreases inner.len(),
{
    let all = inner + rest;
    if inner.len() == 1 {
        assert(all.skip(1) =~= rest);
    } else {
        let tail = inner.skip(1);
        assert(inner[0] != 'm');
        assert(all.skip(1) =~= tail + rest);
        assert forall|i: int| 0 <= i < tail.len() - 1 implies #[trigger] tail[i] != 'm' by {
            assert(tail[i] == inner[i + 1]);
        }
        lemma_behind_style(tail, rest);
    }
}

/// Nothing is shown of a link's start or end, nor of an image, up to the bell or the escape and the
/// backslash that end it.
proof fn lemma_command_is_hidden(inner: Seq<char>, end: Seq<char>)
    requires
        is_clean(inner),
        end == seq!['\u{7}'] || end == seq!['\u{1b}', '\\'],
    ensures
        shows(seq!['\u{1b}', ']'] + inner + end, Seq::empty()),
{
    reveal(shows);
    let s = seq!['\u{1b}', ']'] + inner + end;
    assert forall|rest: Seq<char>| visible(#[trigger] (s + rest)) == Seq::<char>::empty() + visible(
        rest,
    ) by {
        let all = s + rest;
        assert(all.skip(2) =~= inner + end + rest);
        lemma_behind_command(inner, end, rest);
        assert(Seq::<char>::empty() + visible(rest) =~= visible(rest));
    }
}

proof fn lemma_behind_command(inner: Seq<char>, end: Seq<char>, rest: Seq<char>)
    requires
        is_clean(inner),
        end == seq!['\u{7}'] || end == seq!['\u{1b}', '\\'],
    ensures
        behind_command(inner + end + rest) == rest,
    decreases inner.len(),
{
    let all = inner + end + rest;
    if inner.len() == 0 {
        assert(all =~= end + rest);
        assert(all.skip(end.len() as int) =~= rest);
    } else {
        let tail = inner.skip(1);
        assert(inner[0] != '\u{1b}' && inner[0] != '\u{7}');
        assert(all.skip(1) =~= tail + end + rest);
        assert forall|i: int| 0 <= i < tail.len() implies #[trigger] tail[i] != '\u{1b}' && tail[i]
            != '\u{7}' by {
            assert(tail[i] == inner[i + 1]);
        }
        lemma_behind_command(tail, end, rest);
    }
}

/// Colors and the other styles are sequences that set a style.
proof fn lemma_colors_are_styles(r: u8, g: u8, b: u8)
    ensures
        is_style(fg_code(r, g, b)),
        is_style(bg_code(r, g, b)),
{
    reveal(fg_code);
    reveal(bg_code);
    reveal_strlit("\x1b[38;2;");
    reveal_strlit("\x1b[48;2;");
    reveal_strlit(";");
    reveal_strlit("m");
    let x = decimal(r as nat);
    let y = decimal(g as nat);
    let z = decimal(b as nat);
    law_decimal_stands_for_the_number(r as nat);
    law_decimal_stands_for_the_number(g as nat);
    law_decimal_stands_for_the_number(b as nat);
    lemma_color_is_style("\x1b[38;2;"@, x, y, z);
    lemma_color_is_style("\x1b[48;2;"@, x, y, z);
}

proof fn lemma_color_is_style(start: Seq<char>, x: Seq<char>, y: Seq<char>, z: Seq<char>)
    requires
        start.len() >= 2,
        start[0] == '\u{1b}',
        start[1] == '[',
        forall|i: int| 2 <= i < start.len() ==> #[trigger] start[i] != 'm',
        forall|i: int| 0 <= i < x.len() ==> '0' <= #[trigger] x[i] <= '9',
        forall|i: int| 0 <= i < y.len() ==> '0' <= #[trigger] y[i] <= '9',
        forall|i: int| 0 <= i < z.len() ==> '0' <= #[trigger] z[i] <= '9',
    ensures
        is_style(start + x + ";"@ + y + ";"@ + z + "m"@),
{
    reveal(is_style);
    reveal_strlit(";");
    reveal_strlit("m");
    let s = start + x + ";"@ + y + ";"@ + z + "m"@;
    let a = start.len();
    let b = a + x.len();
    let c = b + 1 + y.len();
    assert forall|i: int| 2 <= i < s.len() - 1 implies #[trigger] s[i] != 'm' by {
        if i < a {
            assert(s[i] == start[i]);
        } else if i < b {
            assert(s[i] == x[i - a]);
        } else if i == b {
            assert(s[i] == ';');
        } else if i < c {
            assert(s[i] == y[i - b - 1]);
        } else if i == c {
            assert(s[i] == ';');
        } else {
            assert(s[i] == z[i - c - 1]);
        }
    }
}

/// The styles that are no colors are sequences that set a style.
proof fn lemma_fixed_styles()
    ensures
        is_style(RESET@),
        is_style(BOLD@),
        is_style(DIM@),
        is_style(ITALIC@),
        is_style(UNDERLINE@),
        is_style(STRIKE@),
{
    reveal(is_style);
    reveal_strlit("\x1b[0m");
    reveal_strlit("\x1b[1m");
    reveal_strlit("\x1b[2m");
    reveal_strlit("\x1b[3m");
    reveal_strlit("\x1b[4m");
    reveal_strlit("\x1b[9m");
}

/// A style behind a text hides nothing of it.
proof fn lemma_then_style(s: Seq<char>, shown: Seq<char>, code: Seq<char>)
    requires
        shows(s, shown),
        is_style(code),
    ensures
        shows(s + code, shown),
{
    lemma_style_is_hidden(code);
    lemma_shows_both(s, shown, code, Seq::empty());
    assert(shown + Seq::<char>::empty() =~= shown);
}

/// A text behind another is shown behind it.
proof fn lemma_then_text(s: Seq<char>, shown: Seq<char>, text: Seq<char>)
    requires
        shows(s, shown),
        is_clean(text),
    ensures
        shows(s + text, shown + text),
{
    lemma_clean_is_shown(text);
    lemma_shows_both(s, shown, text, text);
}

/// The colors of the renderers are styles.
proof fn lemma_used_colors()
    ensures
        is_style(fg_code(140, 140, 140)),
        is_style(fg_code(130, 170, 255)),
        is_style(fg_code(130, 200, 130)),
        is_style(fg_code(220, 200, 100)),
        is_style(fg_code(190, 160, 250)),
        is_style(fg_code(230, 150, 150)),
        is_style(fg_code(200, 200, 200)),
        is_style(bg_code(30, 30, 30)),
        is_style(bg_code(35, 35, 42)),
        is_style(bg_code(20, 20, 20)),
{
    lemma_colors_are_styles(140, 140, 140);
    lemma_colors_are_styles(130, 170, 255);
    lemma_colors_are_styles(130, 200, 130);
    lemma_colors_are_styles(220, 200, 100);
    lemma_colors_are_styles(190, 160, 250);
    lemma_colors_are_styles(230, 150, 150);
    lemma_colors_are_styles(200, 200, 200);
    lemma_colors_are_styles(30, 30, 30);
    lemma_colors_are_styles(35, 35, 42);
    lemma_colors_are_styles(20, 20, 20);
}

/// What is shown of a heading: its signs and its text on a line, with a rule below it at the first
/// two levels and an empty line above it at the first three.
pub proof fn law_heading_shows_its_text(level: u8, text: Seq<char>, width: nat)
    requires
        is_clean(text),
    ensures
        ({
            let title = repeated('#', level as nat) + seq![' '] + text + seq!['\n'];
            let shown = visible(heading_text(level, text, width));
            &&& level == 1 ==> shown == seq!['\n'] + title + repeated('━', width) + seq!['\n', '\n']
            &&& level == 2 ==> shown == seq!['\n'] + title + repeated('─', width * 2 / 3) + seq!['\n']
            &&& level == 3 ==> shown == seq!['\n'] + title
            &&& level == 0 || level >= 4 ==> shown == title
        }),
{
    reveal_strlit("\n");
    reveal_strlit(" ");
    reveal_strlit("  ");
    reveal_strlit("    ");
    lemma_fixed_styles();
    lemma_used_colors();
    let gray = fg_code(140, 140, 140);
    let signs = gray + repeated('#', level as nat);
    lemma_style_is_hidden(gray);
    lemma_then_text(gray, Seq::empty(), repeated('#', level as nat));
    assert(Seq::<char>::empty() + repeated('#', level as nat) =~= repeated('#', level as nat));
    let title = repeated('#', level as nat) + seq![' '] + text + seq!['\n'];
    if level == 1 {
        let shown = seq!['\n'] + title + repeated('━', width) + seq!['\n', '\n'];
        lemma_clean_is_shown("\n"@);
        let s = "\n"@;
        let v = "\n"@;
        lemma_shows_both(s, v, signs, repeated('#', level as nat));
        let s = s + signs;
        let v = v + repeated('#', level as nat);
        lemma_then_style(s, v, RESET@);
        let s = s + RESET@;
        lemma_then_text(s, v, " "@);
        let s = s + " "@;
        let v = v + " "@;
        lemma_then_style(s, v, BOLD@);
        let s = s + BOLD@;
        lemma_then_style(s, v, fg_code(130, 170, 255));
        let s = s + fg_code(130, 170, 255);
        lemma_then_text(s, v, text);
        let s = s + text;
        let v = v + text;
        lemma_then_style(s, v, RESET@);
        let s = s + RESET@;
        lemma_then_text(s, v, "\n"@);
        let s = s + "\n"@;
        let v = v + "\n"@;
        lemma_then_style(s, v, fg_code(140, 140, 140));
        let s = s + fg_code(140, 140, 140);
        lemma_then_text(s, v, repeated('━', width));
        let s = s + repeated('━', width);
        let v = v + repeated('━', width);
        lemma_then_style(s, v, RESET@);
        let s = s + RESET@;
        lemma_then_text(s, v, "\n"@);
        let s = s + "\n"@;
        let v = v + "\n"@;
        lemma_then_text(s, v, "\n"@);
        let s = s + "\n"@;
        let v = v + "\n"@;
        assert(s == heading_text(level, text, width));
        lemma_shows_alone(s, v);
        assert(v =~= shown);
    } else if level == 2 {
        let shown = seq!['\n'] + title + repeated('─', width * 2 / 3) + seq!['\n'];
        lemma_clean_is_shown("\n"@);
        let s = "\n"@;
        let v = "\n"@;
        lemma_shows_both(s, v, signs, repeated('#', level as nat));
        let s = s + signs;
        let v = v + repeated('#', level as nat);
        lemma_then_style(s, v, RESET@);
        let s = s + RESET@;
        lemma_then_text(s, v, " "@);
        let s = s + " "@;
        let v = v + " "@;
        lemma_then_style(s, v, BOLD@);
        let s = s + BOLD@;
        lemma_then_style(s, v, fg_code(130, 200, 130));
        let s = s + fg_code(130, 200, 130);
        lemma_then_text(s, v, text);
        let s = s + text;
        let v = v + text;
        lemma_then_style(s, v, RESET@);
        let s = s + RESET@;
        lemma_then_text(s, v, "\n"@);
        let s = s + "\n"@;
        let v = v + "\n"@;
        lemma_then_style(s, v, fg_code(140, 140, 140));
        let s = s + fg_code(140, 140, 140);
        lemma_then_text(s, v, repeated('─', width * 2 / 3));
        let s = s + repeated('─', width * 2 / 3);
        let v = v + repeated('─', width * 2 / 3);
        lemma_then_style(s, v, RESET@);
        let s = s + RESET@;
        lemma_then_text(s, v, "\n"@);
        let s = s + "\n"@;
        let v = v + "\n"@;
        assert(s == heading_text(level, text, width));
        lemma_shows_alone(s, v);
        assert(v =~= shown);
    } else if level == 3 {
        let shown = seq!['\n'] + title;
        lemma_clean_is_shown("\n"@);
        let s = "\n"@;
        let v = "\n"@;
        lemma_shows_both(s, v, signs, repeated('#', level as nat));
        let s = s + signs;
        let v = v + repeated('#', level as nat);
        lemma_then_style(s, v, RESET@);
        let s = s + RESET@;
        lemma_then_text(s, v, " "@);
        let s = s + " "@;
        let v = v + " "@;
        lemma_then_style(s, v, BOLD@);
        let s = s + BOLD@;
        lemma_then_style(s, v, fg_code(220, 200, 100));
        let s = s + fg_code(220, 200, 100);
        lemma_then_text(s, v, text);
        let s = s + text;
        let v = v + text;
        lemma_then_style(s, v, RESET@);
        let s = s + RESET@;
        lemma_then_text(s, v, "\n"@);
        let s = s + "\n"@;
        let v = v + "\n"@;
        assert(s == heading_text(level, text, width));
        lemma_shows_alone(s, v);
        assert(v =~= shown);
    } else if level == 4 {
        let shown = title;
        let s = signs;
        let v = repeated('#', level as nat);
        lemma_then_style(s, v, RESET@);
        let s = s + RESET@;
        lemma_then_text(s, v, " "@);
        let s = s + " "@;
        let v = v + " "@;
        lemma_then_style(s, v, BOLD@);
        let s = s + BOLD@;
        lemma_then_text(s, v, text);
        let s = s + text;
        let v = v + text;
        lemma_then_style(s, v, RESET@);
        let s = s + RESET@;
        lemma_then_text(s, v, "\n"@);
        let s = s + "\n"@;
        let v = v + "\n"@;
        assert(s == heading_text(level, text, width));
        lemma_shows_alone(s, v);
        assert(v =~= shown);
    } else {
        let shown = title;
        let s = signs;
        let v = repeated('#', level as nat);
        lemma_then_text(s, v, " "@);
        let s = s + " "@;
        let v = v + " "@;
        lemma_then_text(s, v, text);
        let s = s + text;
        let v = v + text;
        lemma_then_style(s, v, RESET@);
        let s = s + RESET@;
        lemma_then_text(s, v, "\n"@);
        let s = s + "\n"@;
        let v = v + "\n"@;
        assert(s == heading_text(level, text, width));
        lemma_shows_alone(s, v);
        assert(v =~= shown);
    }
}

/// What is shown of a link's destination and end: nothing.
proof fn lemma_link_is_hidden(url: Seq<char>)
    requires
        is_clean(url),
    ensures
        shows("\x1b]8;;"@ + url + "\x1b\\"@, Seq::empty()),
        shows("\x1b]8;;\x1b\\"@, Seq::empty()),
{
    reveal_strlit("\x1b]8;;");
    reveal_strlit("\x1b\\");
    reveal_strlit("\x1b]8;;\x1b\\");
    let start = seq!['\u{1b}', ']'];
    let end = seq!['\u{1b}', '\\'];
    let kind = seq!['8', ';', ';'];
    assert("\x1b]8;;"@ + url + "\x1b\\"@ =~= start + (kind + url) + end);
    assert("\x1b]8;;\x1b\\"@ =~= start + kind + end);
    assert forall|i: int| 0 <= i < (kind + url).len() implies #[trigger] (kind + url)[i]
        != '\u{1b}' && (kind + url)[i] != '\u{7}' by {
        if i >= 3 {
            assert((kind + url)[i] == url[i - 3]);
        }
    }
    lemma_command_is_hidden(kind + url, end);
    lemma_command_is_hidden(kind, end);
}

/// Whether what is shown of an inline, and the destination of a link, holds no escape and no bell.
pub open spec fn is_clean_inline(inline: InlineV) -> bool {
    &&& is_clean(shown_text(inline))
    &&& inline matches InlineV::Link { text: _, url } ==> is_clean(url)
}

/// What is shown of an inline in its style.
proof fn lemma_inline_is_shown(inline: InlineV)
    requires
        is_clean_inline(inline),
    ensures
        shows(inline_text(inline), shown_text(inline)),
{
    reveal(inline_text);
    reveal_strlit("\n");
    reveal_strlit(" ");
    reveal_strlit("  ");
    reveal_strlit("    ");
    lemma_fixed_styles();
    lemma_used_colors();
    assert(" "@ =~= seq![' ']);
    match inline {
        InlineV::Text(t) => {
            lemma_clean_is_shown(t);
        },
        InlineV::Bold(t) => {
            lemma_style_is_hidden(BOLD@);
            let s = BOLD@;
            let v = Seq::<char>::empty();
            lemma_then_text(s, v, t);
            let s = s + t;
            let v = v + t;
            lemma_then_style(s, v, RESET@);
            let s = s + RESET@;
            assert(s == inline_text(inline));
            assert(v =~= shown_text(inline));
        },
        InlineV::Italic(t) => {
            lemma_style_is_hidden(ITALIC@);
            let s = ITALIC@;
            let v = Seq::<char>::empty();
            lemma_then_text(s, v, t);
            let s = s + t;
            let v = v + t;
            lemma_then_style(s, v, RESET@);
            let s = s + RESET@;
            assert(s == inline_text(inline));
            assert(v =~= shown_text(inline));
        },
        InlineV::Strikethrough(t) => {
            lemma_style_is_hidden(STRIKE@);
            let s = STRIKE@;
            let v = Seq::<char>::empty();
            lemma_then_style(s, v, DIM@);
            let s = s + DIM@;
            lemma_then_text(s, v, t);
            let s = s + t;
            let v = v + t;
            lemma_then_style(s, v, RESET@);
            let s = s + RESET@;
            assert(s == inline_text(inline));
            assert(v =~= shown_text(inline));
        },
        InlineV::Code(t) => {
            let all = shown_text(inline);
            assert forall|i: int| 0 <= i < t.len() implies #[trigger] t[i] != '\u{1b}' && t[i]
                != '\u{7}' by {
                assert(all[i + 1] == t[i]);
            }
            lemma_style_is_hidden(bg_code(30, 30, 30));
            let s = bg_code(30, 30, 30);
            let v = Seq::<char>::empty();
            lemma_then_style(s, v, fg_code(230, 150, 150));
            let s = s + fg_code(230, 150, 150);
            lemma_then_text(s, v, " "@);
            let s = s + " "@;
            let v = v + " "@;
            lemma_then_text(s, v, t);
            let s = s + t;
            let v = v + t;
            lemma_then_text(s, v, " "@);
            let s = s + " "@;
            let v = v + " "@;
            lemma_then_style(s, v, RESET@);
            let s = s + RESET@;
            assert(s == inline_text(inline));
            assert(v =~= shown_text(inline));
        },
        InlineV::Link { text, url } => {
            lemma_link_is_hidden(url);
            let s = ("\x1b]8;;"@ + url + "\x1b\\"@);
            let v = Seq::<char>::empty();
            lemma_then_style(s, v, UNDERLINE@);
            let s = s + UNDERLINE@;
            lemma_then_style(s, v, fg_code(130, 170, 255));
            let s = s + fg_code(130, 170, 255);
            lemma_then_text(s, v, text);
            let s = s + text;
            let v = v + text;
            lemma_then_style(s, v, RESET@);
            let s = s + RESET@;
            lemma_shows_both(s, v, "\x1b]8;;\x1b\\"@, Seq::<char>::empty());
            let s = s + "\x1b]8;;\x1b\\"@;
            let v = v + Seq::<char>::empty();
            assert(s == inline_text(inline));
            assert(v =~= shown_text(inline));
        },
        InlineV::Math { source } => {
            lemma_style_is_hidden(fg_code(190, 160, 250));
            let s = fg_code(190, 160, 250);
            let v = Seq::<char>::empty();
            lemma_then_text(s, v, math_text(source));
            let s = s + math_text(source);
            let v = v + math_text(source);
            lemma_then_style(s, v, RESET@);
            let s = s + RESET@;
            assert(s == inline_text(inline));
            assert(v =~= shown_text(inline));
        },
        InlineV::SoftBreak => {
            lemma_clean_is_shown(" "@);
        },
        InlineV::LineBreak => {
            lemma_clean_is_shown(" "@);
        },
    }
}

/// What is shown of inlines in their styles.
proof fn lemma_inlines_are_shown(inlines: Seq<InlineV>)
    requires
        forall|i: int| 0 <= i < inlines.len() ==> is_clean_inline(#[trigger] inlines[i]),
    ensures
        shows(inlines_text(inlines), shown_texts(inlines)),
    decreases inlines.len(),
{
    if inlines.len() == 0 {
        lemma_clean_is_shown(Seq::empty());
    } else {
        let rest = inlines.drop_last();
        assert forall|i: int| 0 <= i < rest.len() implies is_clean_inline(#[trigger] rest[i]) by {
            assert(rest[i] == inlines[i]);
        }
        lemma_inlines_are_shown(rest);
        assert(is_clean_inline(inlines[inlines.len() - 1]));
        lemma_inline_is_shown(inlines.last());
        lemma_shows_both(
            inlines_text(rest),
            shown_texts(rest),
            inline_text(inlines.last()),
            shown_text(inlines.last()),
        );
    }
}

/// A paragraph shows its text: without the sequences that set styles and links it is what is shown
/// of its inlines, one after the other.
pub proof fn law_paragraph_shows_its_inlines(inlines: Seq<InlineV>)
    requires
        forall|i: int| 0 <= i < inlines.len() ==> is_clean_inline(#[trigger] inlines[i]),
    ensures
        visible(inlines_text(inlines)) == shown_texts(inlines),
{
    lemma_inlines_are_shown(inlines);
    lemma_shows_alone(inlines_text(inlines), shown_texts(inlines));
}

/// Items, a quotation, a rule, a formula and a diagram without an image.
proof fn lemma_small_blocks(text: Seq<char>, width: nat)
    requires
        is_clean(text),
    ensures
        shows(item_text(text), seq![' ', ' ', '•', ' ', ' '] + text + seq!['\n']),
        visible(blockquote_text(text)) == seq![' ', ' ', '│', ' ', ' '] + text + seq!['\n'],
        visible(hr_text(width)) == seq!['\n'] + repeated('─', width) + seq!['\n', '\n'],
        visible(no_image_text()) == "  (mermaid render failed)"@ + seq!['\n'],
{
    reveal_strlit("\n");
    reveal_strlit(" ");
    reveal_strlit("  ");
    reveal_strlit("    ");
    reveal_strlit("•");
    reveal_strlit("│");
    reveal_strlit("  (mermaid render failed)");
    reveal(item_text);
    reveal(blockquote_text);
    reveal(hr_text);
    reveal(no_image_text);
    lemma_fixed_styles();
    lemma_used_colors();
    assert(shows(item_text(text), seq![' ', ' ', '•', ' ', ' '] + text + seq!['\n'])) by {
        lemma_clean_is_shown("  "@);
        let s = "  "@;
        let v = "  "@;
        lemma_then_style(s, v, fg_code(140, 140, 140));
        let s = s + fg_code(140, 140, 140);
        lemma_then_text(s, v, "•"@);
        let s = s + "•"@;
        let v = v + "•"@;
        lemma_then_style(s, v, RESET@);
        let s = s + RESET@;
        lemma_then_text(s, v, "  "@);
        let s = s + "  "@;
        let v = v + "  "@;
        lemma_then_text(s, v, text);
        let s = s + text;
        let v = v + text;
        lemma_then_text(s, v, "\n"@);
        let s = s + "\n"@;
        let v = v + "\n"@;
        assert(s == item_text(text));
        assert(v =~= seq![' ', ' ', '•', ' ', ' '] + text + seq!['\n']);
    }
    assert(visible(blockquote_text(text)) == seq![' ', ' ', '│', ' ', ' '] + text + seq!['\n']) by {
        lemma_style_is_hidden(bg_code(20, 20, 20));
        let s = bg_code(20, 20, 20);
        let v = Seq::<char>::empty();
        lemma_then_text(s, v, "  "@);
        let s = s + "  "@;
        let v = v + "  "@;
        lemma_then_style(s, v, fg_code(140, 140, 140));
        let s = s + fg_code(140, 140, 140);
        lemma_then_text(s, v, "│"@);
        let s = s + "│"@;
        let v = v + "│"@;
        lemma_then_style(s, v, RESET@);
        let s = s + RESET@;
        lemma_then_style(s, v, bg_code(20, 20, 20));
        let s = s + bg_code(20, 20, 20);
        lemma_then_text(s, v, "  "@);
        let s = s + "  "@;
        let v = v + "  "@;
        lemma_then_style(s, v, ITALIC@);
        let s = s + ITALIC@;
        lemma_then_style(s, v, DIM@);
        let s = s + DIM@;
        lemma_then_text(s, v, text);
        let s = s + text;
        let v = v + text;
        lemma_then_style(s, v, RESET@);
        let s = s + RESET@;
        lemma_then_text(s, v, "\n"@);
        let s = s + "\n"@;
        let v = v + "\n"@;
        assert(s == blockquote_text(text));
        lemma_shows_alone(s, v);
        assert(v =~= seq![' ', ' ', '│', ' ', ' '] + text + seq!['\n']);
    }
    assert(visible(hr_text(width)) == seq!['\n'] + repeated('─', width) + seq!['\n', '\n']) by {
        lemma_clean_is_shown("\n"@);
        let s = "\n"@;
        let v = "\n"@;
        lemma_then_style(s, v, fg_code(140, 140, 140));
        let s = s + fg_code(140, 140, 140);
        lemma_then_text(s, v, repeated('─', width));
        let s = s + repeated('─', width);
        let v = v + repeated('─', width);
        lemma_then_style(s, v, RESET@);
        let s = s + RESET@;
        lemma_then_text(s, v, "\n"@);
        let s = s + "\n"@;
        let v = v + "\n"@;
        lemma_then_text(s, v, "\n"@);
        let s = s + "\n"@;
        let v = v + "\n"@;
        assert(s == hr_text(width));
        lemma_shows_alone(s, v);
        assert(v =~= seq!['\n'] + repeated('─', width) + seq!['\n', '\n']);
    }
    assert(visible(no_image_text()) == "  (mermaid render failed)"@ + seq!['\n']) by {
        lemma_style_is_hidden(fg_code(140, 140, 140));
        let s = fg_code(140, 140, 140);
        let v = Seq::<char>::empty();
        lemma_then_text(s, v, "  (mermaid render failed)"@);
        let s = s + "  (mermaid render failed)"@;
        let v = v + "  (mermaid render failed)"@;
        lemma_then_style(s, v, RESET@);
        let s = s + RESET@;
        lemma_then_text(s, v, "\n"@);
        let s = s + "\n"@;
        let v = v + "\n"@;
        assert(s == no_image_text());
        lemma_shows_alone(s, v);
        assert(v =~= "  (mermaid render failed)"@ + seq!['\n']);
    }
}

/// The lines of items, each behind its bullet.
pub open spec fn bulleted(items: Seq<Seq<char>>) -> Seq<char>
    decreases items.len(),
{
    if items.len() == 0 {
        Seq::empty()
    } else {
        bulleted(items.drop_last()) + (seq![' ', ' ', '•', ' ', ' '] + items.last() + seq!['\n'])
    }
}

/// A list shows its items, one to a line and each behind a bullet.
pub proof fn law_list_shows_its_items(items: Seq<Seq<char>>)
    requires
        forall|i: int| 0 <= i < items.len() ==> is_clean(#[trigger] items[i]),
    ensures
        visible(list_text(items)) == bulleted(items),
{
    lemma_list_is_shown(items);
    lemma_shows_alone(list_text(items), bulleted(items));
}

proof fn lemma_list_is_shown(items: Seq<Seq<char>>)
    requires
        forall|i: int| 0 <= i < items.len() ==> is_clean(#[trigger] items[i]),
    ensures
        shows(list_text(items), bulleted(items)),
    decreases items.len(),
{
    if items.len() == 0 {
        lemma_clean_is_shown(Seq::empty());
    } else {
        let rest = items.drop_last();
        assert forall|i: int| 0 <= i < rest.len() implies is_clean(#[trigger] rest[i]) by {
            assert(rest[i] == items[i]);
        }
        lemma_list_is_shown(rest);
        assert(is_clean(items[items.len() - 1]));
        lemma_small_blocks(items.last(), 0);
        lemma_shows_both(
            list_text(rest),
            bulleted(rest),
            item_text(items.last()),
            seq![' ', ' ', '•', ' ', ' '] + items.last() + seq!['\n'],
        );
    }
}

/// A quotation shows its text behind a bar, a rule is as wide as it should be, and a formula shows
/// its Unicode text, on an indented line of its own if it is displayed.
pub proof fn law_quotation_rule_and_formula_show_their_text(text: Seq<char>, width: nat)
    requires
        is_clean(text),
        is_clean(math_text(text)),
    ensures
        visible(blockquote_text(text)) == seq![' ', ' ', '│', ' ', ' '] + text + seq!['\n'],
        visible(hr_text(width)) == seq!['\n'] + repeated('─', width) + seq!['\n', '\n'],
        visible(math_block_text(text, false)) == math_text(text),
        visible(math_block_text(text, true)) == seq!['\n', ' ', ' ', ' ', ' '] + math_text(text)
            + seq!['\n', '\n'],
{
    lemma_small_blocks(text, width);
    reveal_strlit("\n");
    reveal_strlit(" ");
    reveal_strlit("  ");
    reveal_strlit("    ");
    reveal(math_block_text);
    lemma_fixed_styles();
    lemma_used_colors();
    let formula = fg_code(190, 160, 250) + math_text(text) + RESET@;
    assert(shows(formula, math_text(text))) by {
        lemma_style_is_hidden(fg_code(190, 160, 250));
        let s = fg_code(190, 160, 250);
        let v = Seq::<char>::empty();
        lemma_then_text(s, v, math_text(text));
        let s = s + math_text(text);
        let v = v + math_text(text);
        lemma_then_style(s, v, RESET@);
        let s = s + RESET@;
        assert(v =~= math_text(text));
    }
    lemma_shows_alone(formula, math_text(text));
    assert(visible(math_block_text(text, true)) == seq!['\n', ' ', ' ', ' ', ' '] + math_text(text)
        + seq!['\n', '\n']) by {
        lemma_clean_is_shown("\n"@);
        let s = "\n"@;
        let v = "\n"@;
        lemma_then_text(s, v, "    "@);
        let s = s + "    "@;
        let v = v + "    "@;
        lemma_shows_both(s, v, formula, math_text(text));
        let s = s + formula;
        let v = v + math_text(text);
        lemma_then_text(s, v, "\n"@);
        let s = s + "\n"@;
        let v = v + "\n"@;
        lemma_then_text(s, v, "\n"@);
        let s = s + "\n"@;
        let v = v + "\n"@;
        assert(s == math_block_text(text, true));
        lemma_shows_alone(s, v);
        assert(v =~= seq!['\n', ' ', ' ', ' ', ' '] + math_text(text) + seq!['\n', '\n']);
    }
}

/// A text of two parts takes the bytes of both.
proof fn lemma_bytes_of_both(a: Seq<char>, b: Seq<char>)
    ensures
        byte_len(a + b) == byte_len(a) + byte_len(b),
    decreases a.len(),
{
    if a.len() == 0 {
        assert(a + b =~= b);
    } else {
        lemma_bytes_of_both(a.drop_first(), b);
        assert((a + b).drop_first() =~= a.drop_first() + b);
    }
}

/// A line of code in a box of the given width: indented by four, and padded to fill the box as if
/// each byte took a column.
pub open spec fn boxed_line(line: Seq<char>, bw: nat) -> Seq<char> {
    seq![' ', ' ', ' ', ' '] + line + repeated(' ', padding(bw, 4 + byte_len(line))) + seq!['\n']
}

/// Lines of code in a box, one after the other.
pub open spec fn boxed_lines(lines: Seq<Seq<char>>, bw: nat) -> Seq<char>
    decreases lines.len(),
{
    if lines.len() == 0 {
        Seq::empty()
    } else {
        boxed_lines(lines.drop_last(), bw) + boxed_line(lines.last(), bw)
    }
}

/// What is shown of an empty row of the box, of a plain row and of the language.
proof fn lemma_plain_row_is_shown(line: Seq<char>, bw: nat)
    requires
        is_clean(line),
    ensures
        shows(box_row(bw), repeated(' ', bw) + seq!['\n']),
        shows(plain_row(line, bw), boxed_line(line, bw)),
        shows(language_text(Some(line)), line + seq!['\n']),
        shows(language_text(None), Seq::empty()),
{
    reveal_strlit("\n");
    reveal_strlit(" ");
    reveal_strlit("  ");
    reveal_strlit("    ");
    reveal(box_row);
    reveal(plain_row);
    reveal(language_text);
    lemma_fixed_styles();
    lemma_used_colors();
    lemma_clean_is_shown(Seq::empty());
    assert(shows(box_row(bw), repeated(' ', bw) + seq!['\n'])) by {
        lemma_style_is_hidden(bg_code(35, 35, 42));
        let s = bg_code(35, 35, 42);
        let v = Seq::<char>::empty();
        lemma_then_text(s, v, repeated(' ', bw));
        let s = s + repeated(' ', bw);
        let v = v + repeated(' ', bw);
        lemma_then_style(s, v, RESET@);
        let s = s + RESET@;
        lemma_then_text(s, v, "\n"@);
        let s = s + "\n"@;
        let v = v + "\n"@;
        assert(s == box_row(bw));
        assert(v =~= repeated(' ', bw) + seq!['\n']);
    }
    let pad = repeated(' ', padding(bw, 4 + byte_len(line)));
    assert(shows(plain_row(line, bw), boxed_line(line, bw))) by {
        lemma_style_is_hidden(bg_code(35, 35, 42));
        let s = bg_code(35, 35, 42);
        let v = Seq::<char>::empty();
        lemma_then_style(s, v, fg_code(200, 200, 200));
        let s = s + fg_code(200, 200, 200);
        lemma_then_text(s, v, "    "@);
        let s = s + "    "@;
        let v = v + "    "@;
        lemma_then_text(s, v, line);
        let s = s + line;
        let v = v + line;
        lemma_then_text(s, v, pad);
        let s = s + pad;
        let v = v + pad;
        lemma_then_style(s, v, RESET@);
        let s = s + RESET@;
        lemma_then_text(s, v, "\n"@);
        let s = s + "\n"@;
        let v = v + "\n"@;
        assert(s == plain_row(line, bw));
        assert(v =~= boxed_line(line, bw));
    }
    assert(shows(language_text(Some(line)), line + seq!['\n'])) by {
        lemma_style_is_hidden(DIM@);
        let s = DIM@;
        let v = Seq::<char>::empty();
        lemma_then_style(s, v, ITALIC@);
        let s = s + ITALIC@;
        lemma_then_text(s, v, line);
        let s = s + line;
        let v = v + line;
        lemma_then_style(s, v, RESET@);
        let s = s + RESET@;
        lemma_then_text(s, v, "\n"@);
        let s = s + "\n"@;
        let v = v + "\n"@;
        assert(s == language_text(Some(line)));
        assert(v =~= line + seq!['\n']);
    }
}

/// What is shown of rows of plain code.
proof fn lemma_plain_rows_are_shown(lines: Seq<Seq<char>>, bw: nat)
    requires
        forall|k: int| 0 <= k < lines.len() ==> is_clean(#[trigger] lines[k]),
    ensures
        shows(plain_rows(lines, bw), boxed_lines(lines, bw)),
    decreases lines.len(),
{
    if lines.len() == 0 {
        lemma_clean_is_shown(Seq::empty());
    } else {
        let rest = lines.drop_last();
        assert forall|k: int| 0 <= k < rest.len() implies is_clean(#[trigger] rest[k]) by {
            assert(rest[k] == lines[k]);
        }
        lemma_plain_rows_are_shown(rest, bw);
        assert(is_clean(lines[lines.len() - 1]));
        lemma_plain_row_is_shown(lines.last(), bw);
        lemma_shows_both(
            plain_rows(rest, bw),
            boxed_lines(rest, bw),
            plain_row(lines.last(), bw),
            boxed_line(lines.last(), bw),
        );
    }
}

/// Whether the text of a span is on one line and holds no escape and no bell.
pub open spec fn is_clean_span(span: CodeSpanV) -> bool {
    is_clean(span.text) && is_one_line(span.text)
}

/// What is shown of the spans of a line, and how many bytes it takes.
proof fn lemma_spans_are_shown(spans: Seq<CodeSpanV>)
    requires
        forall|j: int| 0 <= j < spans.len() ==> is_clean_span(#[trigger] spans[j]),
    ensures
        shows(spans_text(spans), line_text(spans)),
        spans_len(spans) == byte_len(line_text(spans)),
    decreases spans.len(),
{
    if spans.len() == 0 {
        lemma_clean_is_shown(Seq::empty());
    } else {
        let rest = spans.drop_last();
        let last = spans.last();
        assert forall|j: int| 0 <= j < rest.len() implies is_clean_span(#[trigger] rest[j]) by {
            assert(rest[j] == spans[j]);
        }
        lemma_spans_are_shown(rest);
        assert(is_clean_span(spans[spans.len() - 1]));
        assert(without_newlines(last.text) == last.text) by {
            if last.text.len() > 0 {
                assert(last.text[last.text.len() - 1] != '\n');
            }
        }
        lemma_span_is_shown(last);
        lemma_shows_both(spans_text(rest), line_text(rest), span_text(last), last.text);
        lemma_bytes_of_both(line_text(rest), last.text);
    }
}

proof fn lemma_span_is_shown(span: CodeSpanV)
    requires
        is_clean(span.text),
        without_newlines(span.text) == span.text,
    ensures
        shows(span_text(span), span.text),
{
    reveal(span_text);
    lemma_used_colors();
    let color = match span.fg {
        Some(c) => {
            let (r, g, b) = color_rgb(c);
            lemma_colors_are_styles(r, g, b);
            fg_code(r, g, b)
        },
        None => fg_code(200, 200, 200),
    };
    lemma_style_is_hidden(color);
    lemma_then_text(color, Seq::empty(), span.text);
    assert(Seq::<char>::empty() + span.text =~= span.text);
}

/// What is shown of a row of highlighted code.
proof fn lemma_span_row_is_shown(spans: Seq<CodeSpanV>, bw: nat)
    requires
        forall|j: int| 0 <= j < spans.len() ==> is_clean_span(#[trigger] spans[j]),
    ensures
        shows(span_row(spans, bw), boxed_line(line_text(spans), bw)),
{
    reveal_strlit("\n");
    reveal_strlit(" ");
    reveal_strlit("  ");
    reveal_strlit("    ");
    reveal(span_row);
    lemma_fixed_styles();
    lemma_used_colors();
    lemma_spans_are_shown(spans);
    let pad = repeated(' ', padding(bw, 4 + spans_len(spans)));
    lemma_style_is_hidden(bg_code(35, 35, 42));
    let s = bg_code(35, 35, 42);
    let v = Seq::<char>::empty();
    lemma_then_text(s, v, "    "@);
    let s = s + "    "@;
    let v = v + "    "@;
    lemma_shows_both(s, v, spans_text(spans), line_text(spans));
    let s = s + spans_text(spans);
    let v = v + line_text(spans);
    lemma_then_text(s, v, pad);
    let s = s + pad;
    let v = v + pad;
    lemma_then_style(s, v, RESET@);
    let s = s + RESET@;
    lemma_then_text(s, v, "\n"@);
    let s = s + "\n"@;
    let v = v + "\n"@;
    assert(s == span_row(spans, bw));
    assert(v =~= boxed_line(line_text(spans), bw));
}

/// A row of highlighted code shows its code unchanged: without the sequences that set colors it is
/// four spaces, the texts of the spans, one after the other, and the spaces that fill the box.
pub proof fn law_span_row_shows_its_code(spans: Seq<CodeSpanV>, bw: nat)
    requires
        forall|j: int| 0 <= j < spans.len() ==> is_clean_span(#[trigger] spans[j]),
    ensures
        visible(span_row(spans, bw)) == seq![' ', ' ', ' ', ' '] + line_text(spans) + repeated(
            ' ',
            padding(bw, 4 + byte_len(line_text(spans))),
        ) + seq!['\n'],
{
    lemma_span_row_is_shown(spans, bw);
    lemma_shows_alone(span_row(spans, bw), boxed_line(line_text(spans), bw));
}

/// What is shown of rows of highlighted code.
proof fn lemma_span_rows_are_shown(lines: Seq<Seq<CodeSpanV>>, bw: nat)
    requires
        forall|k: int, j: int|
            0 <= k < lines.len() && 0 <= j < lines[k].len() ==> is_clean_span(
                #[trigger] lines[k][j],
            ),
    ensures
        shows(
            span_rows(lines, bw),
            boxed_lines(lines.map_values(|line: Seq<CodeSpanV>| line_text(line)), bw),
        ),
    decreases lines.len(),
{
    let text = |line: Seq<CodeSpanV>| line_text(line);
    if lines.len() == 0 {
        lemma_clean_is_shown(Seq::empty());
        assert(lines.map_values(text) =~= Seq::empty());
    } else {
        let rest = lines.drop_last();
        let last = lines.last();
        assert forall|k: int, j: int|
            0 <= k < rest.len() && 0 <= j < rest[k].len() implies is_clean_span(
            #[trigger] rest[k][j],
        ) by {
            assert(rest[k][j] == lines[k][j]);
        }
        assert forall|j: int| 0 <= j < last.len() implies is_clean_span(#[trigger] last[j]) by {
            assert(last[j] == lines[lines.len() - 1][j]);
        }
        lemma_span_rows_are_shown(rest, bw);
        lemma_span_row_is_shown(last, bw);
        let all = lines.map_values(text);
        assert(all.drop_last() =~= rest.map_values(text));
        assert(all.last() == line_text(last));
        lemma_shows_both(
            span_rows(rest, bw),
            boxed_lines(rest.map_values(text), bw),
            span_row(last, bw),
            boxed_line(line_text(last), bw),
        );
    }
}

/// The parts of a clean text between its line feeds, and its lines, are clean; the parts are on one
/// line each.
proof fn lemma_parts_are_clean(s: Seq<char>)
    requires
        is_clean(s),
    ensures
        forall|k: int|
            0 <= k < split_lines(s).len() ==> is_clean(#[trigger] split_lines(s)[k]) && is_one_line(
                split_lines(s)[k],
            ),
        forall|k: int| 0 <= k < lines_of(s).len() ==> is_clean(#[trigger] lines_of(s)[k]),
    decreases s.len(),
{
    if s.len() > 0 {
        lemma_find_from(s, seq!['\n'], 0);
        match find_from(s, seq!['\n'], 0) {
            Some(i) => {
                let line = s.take(i);
                let rest = s.skip(i + 1);
                assert forall|k: int| 0 <= k < rest.len() implies #[trigger] rest[k] != '\u{1b}'
                    && rest[k] != '\u{7}' by {
                    assert(rest[k] == s[k + i + 1]);
                }
                assert(is_clean(line)) by {
                    assert forall|k: int| 0 <= k < line.len() implies #[trigger] line[k] != '\u{1b}'
                        && line[k] != '\u{7}' by {
                        assert(line[k] == s[k]);
                    }
                }
                assert(is_one_line(line)) by {
                    lemma_no_line_feed_before(s, i);
                }
                lemma_parts_are_clean(rest);
                assert(is_clean(without_cr(line)));
                let parts = split_lines(s);
                assert forall|k: int| 0 <= k < parts.len() implies is_clean(#[trigger] parts[k])
                    && is_one_line(parts[k]) by {
                    if k > 0 {
                        assert(parts[k] == split_lines(rest)[k - 1]);
                    }
                }
                let all = lines_of(s);
                assert forall|k: int| 0 <= k < all.len() implies is_clean(#[trigger] all[k]) by {
                    if k > 0 {
                        assert(all[k] == lines_of(rest)[k - 1]);
                    }
                }
            },
            None => {
                assert(is_one_line(s)) by {
                    lemma_no_line_feed_before(s, s.len() as int);
                    assert(s.take(s.len() as int) =~= s);
                }
            },
        }
    }
}

/// Before the first line feed that is found there is none.
proof fn lemma_no_line_feed_before(s: Seq<char>, at: int)
    requires
        0 <= at <= s.len(),
        forall|j: int| 0 <= j < at ==> !occurs_at(s, seq!['\n'], j),
    ensures
        is_one_line(s.take(at)),
{
    let line = s.take(at);
    assert forall|k: int| 0 <= k < line.len() implies #[trigger] line[k] != '\n' by {
        if line[k] == '\n' {
            assert(s.subrange(k, k + 1) =~= seq!['\n']);
            assert(occurs_at(s, seq!['\n'], k));
        }
    }
}

/// The spans of a clean line are clean.
proof fn lemma_spans_of_line_are_clean(spans: Seq<CodeSpanV>)
    requires
        is_clean(line_text(spans)),
        is_one_line(line_text(spans)),
    ensures
        forall|j: int| 0 <= j < spans.len() ==> is_clean_span(#[trigger] spans[j]),
    decreases spans.len(),
{
    if spans.len() > 0 {
        let rest = spans.drop_last();
        let last = spans.last().text;
        let before = line_text(rest);
        let all = line_text(spans);
        assert forall|i: int| 0 <= i < before.len() implies #[trigger] before[i] == all[i] by {}
        assert forall|i: int| 0 <= i < last.len() implies #[trigger] last[i] == all[before.len()
            + i] by {}
        assert(is_clean(before) && is_one_line(before));
        assert(is_clean(last) && is_one_line(last));
        lemma_spans_of_line_are_clean(rest);
        assert forall|j: int| 0 <= j < spans.len() implies is_clean_span(#[trigger] spans[j]) by {
            if j < rest.len() {
                assert(rest[j] == spans[j]);
            }
        }
    }
}

/// A text without the white space at its end is clean if the text is.
proof fn lemma_trimmed_is_clean(s: Seq<char>)
    requires
        is_clean(s),
    ensures
        is_clean(trimmed_end(s)),
    decreases s.len(),
{
    if s.len() > 0 && is_white(s.last()) {
        assert forall|i: int| 0 <= i < s.drop_last().len() implies #[trigger] s.drop_last()[i]
            != '\u{1b}' && s.drop_last()[i] != '\u{7}' by {
            assert(s.drop_last()[i] == s[i]);
        }
        lemma_trimmed_is_clean(s.drop_last());
    }
}

/// A code block shows its code, whatever the highlighter makes of it: below its language, if it has
/// one, and between two empty rows of the box, the lines of the code stand unchanged, indented by
/// four and padded to fill a box that is two columns narrower than the terminal.
pub proof fn law_code_block_shows_its_code(
    lang: Option<Seq<char>>,
    code: Seq<char>,
    cols: u16,
    dark: bool,
    spans: BlockSpansV,
)
    requires
        is_highlighting(lang, code, dark, spans),
        is_clean(code),
        lang matches Some(name) ==> is_clean(name),
    ensures
        ({
            let bw: nat = if cols >= 2 {
                (cols - 2) as nat
            } else {
                0
            };
            let name = match lang {
                Some(lang) => lang + seq!['\n'],
                None => Seq::empty(),
            };
            let lines = if spans is Some {
                split_lines(trimmed_end(code))
            } else {
                lines_of(trimmed_end(code))
            };
            let blank = repeated(' ', bw) + seq!['\n'];
            visible(code_block_text(lang, code, cols, spans)) == seq!['\n'] + name + blank
                + boxed_lines(lines, bw) + blank + seq!['\n']
        }),
{
    let bw = box_width(cols);
    let name = match lang {
        Some(lang) => lang + seq!['\n'],
        None => Seq::empty(),
    };
    let trimmed = trimmed_end(code);
    let lines = if spans is Some {
        split_lines(trimmed)
    } else {
        lines_of(trimmed)
    };
    let blank = repeated(' ', bw) + seq!['\n'];
    lemma_trimmed_is_clean(code);
    lemma_parts_are_clean(trimmed);
    lemma_plain_row_is_shown(Seq::empty(), bw);
    if let Some(lang) = lang {
        lemma_plain_row_is_shown(lang, bw);
    }
    match spans {
        Some(made) => {
            let texts = made.map_values(|line: Seq<CodeSpanV>| line_text(line));
            assert(holds_code(made, trimmed));
            assert forall|k: int, j: int|
                0 <= k < made.len() && 0 <= j < made[k].len() implies is_clean_span(
                #[trigger] made[k][j],
            ) by {
                assert(texts[k] == split_lines(trimmed)[k]);
                lemma_spans_of_line_are_clean(made[k]);
            }
            lemma_span_rows_are_shown(made, bw);
        },
        None => {
            lemma_plain_rows_are_shown(lines, bw);
        },
    }
    reveal_strlit("\n");
    reveal_strlit(" ");
    reveal_strlit("  ");
    reveal_strlit("    ");
    lemma_clean_is_shown("\n"@);
    let s = "\n"@;
    let v = "\n"@;
    lemma_shows_both(s, v, language_text(lang), name);
    let s = s + language_text(lang);
    let v = v + name;
    lemma_shows_both(s, v, box_row(bw), blank);
    let s = s + box_row(bw);
    let v = v + blank;
    lemma_shows_both(s, v, code_rows(code, bw, spans), boxed_lines(lines, bw));
    let s = s + code_rows(code, bw, spans);
    let v = v + boxed_lines(lines, bw);
    lemma_shows_both(s, v, box_row(bw), blank);
    let s = s + box_row(bw);
    let v = v + blank;
    lemma_then_text(s, v, "\n"@);
    let s = s + "\n"@;
    let v = v + "\n"@;
    assert(s == code_block_text(lang, code, cols, spans));
    lemma_shows_alone(s, v);
    assert(v =~= seq!['\n'] + name + blank + boxed_lines(lines, bw) + blank + seq!['\n']);
}

/// A text and the spaces behind it are clean if the text is.
proof fn lemma_padded_is_clean(text: Seq<char>, width: nat)
    requires
        is_clean(text),
    ensures
        is_clean(padded(text, width)),
{
    let all = padded(text, width);
    assert forall|i: int| 0 <= i < all.len() implies #[trigger] all[i] != '\u{1b}' && all[i]
        != '\u{7}' by {
        if i < text.len() {
            assert(all[i] == text[i]);
        }
    }
}

/// Some cells of a table row, each with the spaces that fill its column behind it.
pub open spec fn first_cells(
    headers: Seq<Seq<char>>,
    rows: Seq<Seq<Seq<char>>>,
    cells: Seq<Seq<char>>,
    n: nat,
) -> Seq<Seq<char>> {
    Seq::new(
        n,
        |i: int|
            cells[i] + repeated(' ', padding(column_width(headers, rows, i), cells[i].len())),
    )
}

/// The rules below some headers of a table.
pub open spec fn first_rules(
    headers: Seq<Seq<char>>,
    rows: Seq<Seq<Seq<char>>>,
    n: nat,
) -> Seq<Seq<char>> {
    Seq::new(n, |i: int| repeated('─', column_width(headers, rows, i)))
}

/// The lines of some rows of a table.
pub open spec fn first_lines(
    headers: Seq<Seq<char>>,
    rows: Seq<Seq<Seq<char>>>,
    n: nat,
) -> Seq<char>
    decreases n,
{
    if n == 0 {
        Seq::empty()
    } else {
        first_lines(headers, rows, (n - 1) as nat) + (cells_line(headers, rows, rows[n - 1]) + seq![
            '\n',
        ])
    }
}

/// What is shown of the headers of a table and of the rules below them.
proof fn lemma_headers_are_shown(headers: Seq<Seq<char>>, rows: Seq<Seq<Seq<char>>>, n: nat)
    requires
        n <= headers.len(),
        forall|i: int| 0 <= i < headers.len() ==> is_clean(#[trigger] headers[i]),
    ensures
        shows(
            header_row_text(headers, rows, n),
            joined(first_cells(headers, rows, headers, n)),
        ),
        shows(rule_row_text(headers, rows, n), joined(first_rules(headers, rows, n))),
    decreases n,
{
    if n == 0 {
        lemma_clean_is_shown(Seq::empty());
    } else {
        let m = (n - 1) as nat;
        let width = column_width(headers, rows, n - 1);
        lemma_headers_are_shown(headers, rows, m);
        lemma_fixed_styles();
        lemma_used_colors();
        assert(is_clean(headers[n - 1]));
        lemma_padded_is_clean(headers[n - 1], width);
        let cell = padded(headers[n - 1], width);
        assert(shows(header_cell_text(headers[n - 1], width), cell)) by {
            reveal(header_cell_text);
            lemma_style_is_hidden(BOLD@);
            let s = BOLD@;
            let v = Seq::<char>::empty();
            lemma_then_style(s, v, fg_code(130, 170, 255));
            let s = s + fg_code(130, 170, 255);
            lemma_then_text(s, v, cell);
            let s = s + cell;
            let v = v + cell;
            lemma_then_style(s, v, RESET@);
            let s = s + RESET@;
            assert(v =~= cell);
        }
        let rule = repeated('─', width);
        assert(shows(rule_cell_text(width), rule)) by {
            reveal(rule_cell_text);
            lemma_style_is_hidden(fg_code(140, 140, 140));
            let s = fg_code(140, 140, 140);
            let v = Seq::<char>::empty();
            lemma_then_text(s, v, rule);
            let s = s + rule;
            let v = v + rule;
            lemma_then_style(s, v, RESET@);
            let s = s + RESET@;
            assert(v =~= rule);
        }
        let cells = first_cells(headers, rows, headers, n);
        assert(cells.drop_last() =~= first_cells(headers, rows, headers, m));
        assert(cells.last() == cell);
        let rules = first_rules(headers, rows, n);
        assert(rules.drop_last() =~= first_rules(headers, rows, m));
        lemma_shows_both(
            header_row_text(headers, rows, m),
            joined(cells.drop_last()),
            header_cell_text(headers[n - 1], width),
            cell,
        );
        lemma_shows_both(
            rule_row_text(headers, rows, m),
            joined(rules.drop_last()),
            rule_cell_text(width),
            rule,
        );
    }
}

/// What is shown of the cells of a table row.
proof fn lemma_cells_are_shown(
    headers: Seq<Seq<char>>,
    rows: Seq<Seq<Seq<char>>>,
    row: Seq<Seq<char>>,
    n: nat,
)
    requires
        n <= row.len(),
        forall|i: int| 0 <= i < row.len() ==> is_clean(#[trigger] row[i]),
    ensures
        shows(cells_text(headers, rows, row, n), joined(first_cells(headers, rows, row, n))),
    decreases n,
{
    if n == 0 {
        lemma_clean_is_shown(Seq::empty());
    } else {
        let m = (n - 1) as nat;
        let width = column_width(headers, rows, n - 1);
        lemma_cells_are_shown(headers, rows, row, m);
        assert(is_clean(row[n - 1]));
        lemma_padded_is_clean(row[n - 1], width);
        let cells = first_cells(headers, rows, row, n);
        assert(cells.drop_last() =~= first_cells(headers, rows, row, m));
        assert(cells.last() == padded(row[n - 1], width));
        lemma_then_text(
            cells_text(headers, rows, row, m),
            joined(cells.drop_last()),
            padded(row[n - 1], width),
        );
    }
}

/// What is shown of the rows of a table.
proof fn lemma_table_rows_are_shown(headers: Seq<Seq<char>>, rows: Seq<Seq<Seq<char>>>, n: nat)
    requires
        n <= rows.len(),
        forall|r: int, i: int|
            0 <= r < rows.len() && 0 <= i < rows[r].len() ==> is_clean(#[trigger] rows[r][i]),
    ensures
        shows(rows_text(headers, rows, n), first_lines(headers, rows, n)),
    decreases n,
{
    reveal_strlit("\n");
    assert("\n"@ =~= seq!['\n']);
    if n == 0 {
        lemma_clean_is_shown(Seq::empty());
    } else {
        let m = (n - 1) as nat;
        let row = rows[n - 1];
        lemma_table_rows_are_shown(headers, rows, m);
        assert forall|i: int| 0 <= i < row.len() implies is_clean(#[trigger] row[i]) by {
            assert(row[i] == rows[n - 1][i]);
        }
        lemma_cells_are_shown(headers, rows, row, row.len());
        let text = cells_text(headers, rows, row, row.len());
        lemma_then_text(text, cells_line(headers, rows, row), "\n"@);
        lemma_shows_both(
            rows_text(headers, rows, m),
            first_lines(headers, rows, m),
            text + "\n"@,
            cells_line(headers, rows, row) + seq!['\n'],
        );
    }
}

/// A table shows its headers, the rules below them and the cells of its rows, every one in its
/// column; and nothing is shown of a table without headers.
pub proof fn law_table_shows_its_cells(headers: Seq<Seq<char>>, rows: Seq<Seq<Seq<char>>>)
    requires
        forall|i: int| 0 <= i < headers.len() ==> is_clean(#[trigger] headers[i]),
        forall|r: int, i: int|
            0 <= r < rows.len() && 0 <= i < rows[r].len() ==> is_clean(#[trigger] rows[r][i]),
    ensures
        headers.len() == 0 ==> visible(table_text(headers, rows)) == Seq::<char>::empty(),
        headers.len() > 0 ==> visible(table_text(headers, rows)) == cells_line(
            headers,
            rows,
            headers,
        ) + seq!['\n'] + joined(
            Seq::new(headers.len(), |i: int| repeated('─', column_width(headers, rows, i))),
        ) + seq!['\n'] + first_lines(headers, rows, rows.len()),
{
    reveal_strlit("\n");
    assert("\n"@ =~= seq!['\n']);
    let n = headers.len();
    if n > 0 {
        lemma_headers_are_shown(headers, rows, n);
        lemma_table_rows_are_shown(headers, rows, rows.len());
        let line = cells_line(headers, rows, headers);
        let rules = joined(first_rules(headers, rows, n));
        let s = header_row_text(headers, rows, n);
        let v = line;
        lemma_then_text(s, v, "\n"@);
        let s = s + "\n"@;
        let v = v + "\n"@;
        lemma_shows_both(s, v, rule_row_text(headers, rows, n), rules);
        let s = s + rule_row_text(headers, rows, n);
        let v = v + rules;
        lemma_then_text(s, v, "\n"@);
        let s = s + "\n"@;
        let v = v + "\n"@;
        let lines = first_lines(headers, rows, rows.len());
        lemma_shows_both(s, v, rows_text(headers, rows, rows.len()), lines);
        let s = s + rows_text(headers, rows, rows.len());
        let v = v + lines;
        assert(s == table_text(headers, rows));
        lemma_shows_alone(s, v);
    }
}

/// A diagram is written as an inline image of its PNG file, in Base64 between the start of the
/// command and the bell that ends it, or as a note that there is none.
pub proof fn law_diagram_is_an_inline_image(image: ImageV, png: Seq<u8>)
    ensures
        png_of(image.rgba, image.width, image.height) == Some(png) ==> mermaid_text(Some(image))
            == "\x1b]1337;File=inline=1;width=auto;preserveAspectRatio=1:"@ + base64_of(png) + seq![
            '\u{7}',
            '\n',
        ],
        png_of(image.rgba, image.width, image.height) is None ==> mermaid_text(Some(image))
            == Seq::<char>::empty(),
        visible(mermaid_text(None)) == "  (mermaid render failed)"@ + seq!['\n'],
{
    reveal(png_text);
    reveal_strlit("\x07");
    reveal_strlit("\n");
    lemma_small_blocks(Seq::empty(), 0);
    assert("\x1b]1337;File=inline=1;width=auto;preserveAspectRatio=1:"@ + base64_of(png) + "\x07"@
        + "\n"@ =~= "\x1b]1337;File=inline=1;width=auto;preserveAspectRatio=1:"@ + base64_of(png)
        + seq!['\u{7}', '\n']);
}

/// The sequence that sets a style or, with three numbers behind it, a color.
pub open spec fn style(number: char) -> Seq<char> {
    seq!['\u{1b}', '[', number, 'm']
}

/// How inlines are styled: by their kind alone, and a link carries its destination. What every
/// style but the plain one starts is ended behind the text.
pub proof fn law_inlines_are_styled(t: Seq<char>, url: Seq<char>)
    ensures
        inline_text(InlineV::Text(t)) == t,
        inline_text(InlineV::Bold(t)) == style('1') + t + style('0'),
        inline_text(InlineV::Italic(t)) == style('3') + t + style('0'),
        inline_text(InlineV::Strikethrough(t)) == style('9') + style('2') + t + style('0'),
        inline_text(InlineV::Code(t)) == bg_code(30, 30, 30) + fg_code(230, 150, 150) + seq![' ']
            + t + seq![' '] + style('0'),
        inline_text(InlineV::Link { text: t, url }) == seq!['\u{1b}', ']', '8', ';', ';'] + url
            + seq!['\u{1b}', '\\'] + style('4') + fg_code(130, 170, 255) + t + style('0') + seq![
            '\u{1b}',
            ']',
            '8',
            ';',
            ';',
            '\u{1b}',
            '\\',
        ],
        inline_text(InlineV::Math { source: t }) == fg_code(190, 160, 250) + math_text(t) + style(
            '0',
        ),
{
    reveal(inline_text);
    lemma_style_numbers();
    reveal_strlit(" ");
    reveal_strlit("\x1b]8;;");
    reveal_strlit("\x1b\\");
    reveal_strlit("\x1b]8;;\x1b\\");
    assert(" "@ =~= seq![' ']);
    assert("\x1b]8;;"@ =~= seq!['\u{1b}', ']', '8', ';', ';']);
    assert("\x1b\\"@ =~= seq!['\u{1b}', '\\']);
    assert("\x1b]8;;\x1b\\"@ =~= seq!['\u{1b}', ']', '8', ';', ';', '\u{1b}', '\\']);
}

/// The numbers of the styles.
proof fn lemma_style_numbers()
    ensures
        RESET@ == style('0'),
        BOLD@ == style('1'),
        DIM@ == style('2'),
        ITALIC@ == style('3'),
        UNDERLINE@ == style('4'),
        STRIKE@ == style('9'),
{
    reveal_strlit("\x1b[0m");
    reveal_strlit("\x1b[1m");
    reveal_strlit("\x1b[2m");
    reveal_strlit("\x1b[3m");
    reveal_strlit("\x1b[4m");
    reveal_strlit("\x1b[9m");
    assert(RESET@ =~= style('0'));
    assert(BOLD@ =~= style('1'));
    assert(DIM@ =~= style('2'));
    assert(ITALIC@ =~= style('3'));
    assert(UNDERLINE@ =~= style('4'));
    assert(STRIKE@ =~= style('9'));
}

/// A color is set by the numbers of its red, green and blue parts, for the text or for what is
/// behind it.
pub proof fn law_colors_are_set_by_their_parts(r: u8, g: u8, b: u8)
    ensures
        fg_code(r, g, b) == seq!['\u{1b}', '[', '3', '8', ';', '2', ';'] + decimal(r as nat) + seq![
            ';',
        ] + decimal(g as nat) + seq![';'] + decimal(b as nat) + seq!['m'],
        bg_code(r, g, b) == seq!['\u{1b}', '[', '4', '8', ';', '2', ';'] + decimal(r as nat) + seq![
            ';',
        ] + decimal(g as nat) + seq![';'] + decimal(b as nat) + seq!['m'],
{
    reveal(fg_code);
    reveal(bg_code);
    reveal_strlit("\x1b[38;2;");
    reveal_strlit("\x1b[48;2;");
    reveal_strlit(";");
    reveal_strlit("m");
    assert("\x1b[38;2;"@ =~= seq!['\u{1b}', '[', '3', '8', ';', '2', ';']);
    assert("\x1b[48;2;"@ =~= seq!['\u{1b}', '[', '4', '8', ';', '2', ';']);
    assert(";"@ =~= seq![';']);
    assert("m"@ =~= seq!['m']);
}

/// Whether a text is written somewhere: between a start and an end.
#[verifier::opaque]
pub open spec fn is_written(all: Seq<char>, part: Seq<char>) -> bool {
    exists|before: Seq<char>, after: Seq<char>| all == #[trigger] (before + part + after)
}

/// What is written in one of two parts of a text is written in it.
proof fn lemma_written(before: Seq<char>, part: Seq<char>, after: Seq<char>)
    ensures
        is_written(before + part + after, part),
{
    reveal(is_written);
}

/// The text of a heading is bold and in the color of its level at the first three levels, bold at
/// the fourth, and as gray as its signs at the others; what is started is ended behind it.
pub proof fn law_headings_are_styled_by_level(level: u8, text: Seq<char>, width: nat)
    ensures
        ({
            let all = heading_text(level, text, width);
            let gray = fg_code(140, 140, 140);
            let signs = repeated('#', level as nat);
            &&& level == 1 ==> is_written(
                all,
                style('1') + fg_code(130, 170, 255) + text + style('0'),
            )
            &&& level == 2 ==> is_written(
                all,
                style('1') + fg_code(130, 200, 130) + text + style('0'),
            )
            &&& level == 3 ==> is_written(
                all,
                style('1') + fg_code(220, 200, 100) + text + style('0'),
            )
            &&& level == 4 ==> is_written(all, style('1') + text + style('0'))
            &&& 1 <= level <= 4 ==> is_written(all, gray + signs + style('0'))
            &&& level == 0 || level > 4 ==> is_written(
                all,
                gray + signs + seq![' '] + text + style('0'),
            )
            &&& level == 1 ==> is_written(all, gray + repeated('━', width) + style('0'))
            &&& level == 2 ==> is_written(all, gray + repeated('─', width * 2 / 3) + style('0'))
        }),
{
    broadcast use lemma_concat_assoc;

    lemma_style_numbers();
    reveal_strlit(" ");
    assert(" "@ =~= seq![' ']);
    let none = Seq::<char>::empty();
    let gray = fg_code(140, 140, 140);
    let signs = repeated('#', level as nat);
    if level == 1 {
        let title = BOLD@ + fg_code(130, 170, 255) + text + RESET@;
        let line = gray + signs + RESET@;
        let rule = gray + repeated('━', width) + RESET@;
        let end = "\n"@ + "\n"@;
        lemma_written("\n"@ + line + " "@, title, "\n"@ + rule + end);
        lemma_written("\n"@, line, " "@ + title + ("\n"@ + rule + end));
        lemma_written("\n"@ + line + " "@ + title + "\n"@, rule, end);
    } else if level == 2 {
        let title = BOLD@ + fg_code(130, 200, 130) + text + RESET@;
        let line = gray + signs + RESET@;
        let rule = gray + repeated('─', width * 2 / 3) + RESET@;
        let end = "\n"@;
        lemma_written("\n"@ + line + " "@, title, "\n"@ + rule + end);
        lemma_written("\n"@, line, " "@ + title + ("\n"@ + rule + end));
        lemma_written("\n"@ + line + " "@ + title + "\n"@, rule, end);
    } else if level == 3 {
        let title = BOLD@ + fg_code(220, 200, 100) + text + RESET@;
        let line = gray + signs + RESET@;
        lemma_written("\n"@ + line + " "@, title, "\n"@);
        lemma_written("\n"@, line, " "@ + title + ("\n"@));
    } else if level == 4 {
        let title = BOLD@ + text + RESET@;
        let line = gray + signs + RESET@;
        lemma_written(line + " "@, title, "\n"@);
        lemma_written(none, line, " "@ + title + "\n"@);
        assert(none + line =~= line);
    } else {
        let line = gray + signs + " "@ + text + RESET@;
        lemma_written(none, line, "\n"@);
        assert(none + line =~= line);
    }
}

/// Bullets, bars, rules and notes are gray, quotations dim and in italics, headers bold and blue,
/// the language of code dim and in italics; what is started is ended.
pub proof fn law_blocks_are_styled_by_kind(text: Seq<char>, width: nat)
    ensures
        is_written(item_text(text), fg_code(140, 140, 140) + "•"@ + style('0')),
        is_written(item_text(text), "  "@ + text + "\n"@),
        is_written(blockquote_text(text), fg_code(140, 140, 140) + "│"@ + style('0')),
        is_written(blockquote_text(text), style('3') + style('2') + text + style('0')),
        is_written(hr_text(width), fg_code(140, 140, 140) + repeated('─', width) + style('0')),
        header_cell_text(text, width) == style('1') + fg_code(130, 170, 255) + padded(text, width)
            + style('0'),
        rule_cell_text(width) == fg_code(140, 140, 140) + repeated('─', width) + style('0'),
        is_written(language_text(Some(text)), style('2') + style('3') + text + style('0')),
        is_written(
            math_block_text(text, true),
            fg_code(190, 160, 250) + math_text(text) + style('0'),
        ),
        math_block_text(text, false) == fg_code(190, 160, 250) + math_text(text) + style('0'),
{
    lemma_style_numbers();
    reveal(item_text);
    reveal(blockquote_text);
    reveal(hr_text);
    reveal(header_cell_text);
    reveal(rule_cell_text);
    reveal(language_text);
    reveal(math_block_text);
    let none = Seq::<char>::empty();
    let gray = fg_code(140, 140, 140);
    let bullet = gray + "•"@ + RESET@;
    assert(item_text(text) =~= "  "@ + bullet + ("  "@ + text + "\n"@));
    lemma_written("  "@, bullet, "  "@ + text + "\n"@);
    assert(item_text(text) =~= ("  "@ + bullet) + ("  "@ + text + "\n"@) + none);
    lemma_written("  "@ + bullet, "  "@ + text + "\n"@, none);
    let shade = bg_code(20, 20, 20);
    let bar = gray + "│"@ + RESET@;
    let quoted = ITALIC@ + DIM@ + text + RESET@;
    assert(blockquote_text(text) =~= shade + "  "@ + bar + (shade + "  "@ + quoted + "\n"@));
    lemma_written(shade + "  "@, bar, shade + "  "@ + quoted + "\n"@);
    assert(blockquote_text(text) =~= (shade + "  "@ + bar + shade + "  "@) + quoted + "\n"@);
    lemma_written(shade + "  "@ + bar + shade + "  "@, quoted, "\n"@);
    let rule = gray + repeated('─', width) + RESET@;
    assert(hr_text(width) =~= "\n"@ + rule + ("\n"@ + "\n"@));
    lemma_written("\n"@, rule, "\n"@ + "\n"@);
    let name = DIM@ + ITALIC@ + text + RESET@;
    assert(language_text(Some(text)) =~= none + name + "\n"@);
    lemma_written(none, name, "\n"@);
    let formula = fg_code(190, 160, 250) + math_text(text) + RESET@;
    assert(math_block_text(text, true) =~= ("\n"@ + "    "@) + formula + ("\n"@ + "\n"@));
    lemma_written("\n"@ + "    "@, formula, "\n"@ + "\n"@);
}

/// Code stands on the background of the box, which ends at the end of each row; and each span of it
/// is in its own color, or in that of plain code if it has none. Line feeds at the end of a span
/// are left out.
pub proof fn law_code_is_in_its_colors(
    line: Seq<char>,
    spans: Seq<CodeSpanV>,
    bw: nat,
    color: Color,
    modifiers: u8,
    n: nat,
)
    requires
        is_one_line(line),
    ensures
        ({
            let (r, g, b) = color_rgb(color);
            let text = line + repeated('\n', n);
            &&& span_text(CodeSpanV { text, fg: Some(color), modifiers }) == fg_code(r, g, b) + line
            &&& span_text(CodeSpanV { text, fg: None, modifiers }) == fg_code(200, 200, 200) + line
        }),
        exists|inner: Seq<char>|
            span_row(spans, bw) == #[trigger] (bg_code(35, 35, 42) + inner + style('0') + seq![
                '\n',
            ]),
        plain_row(line, bw) == bg_code(35, 35, 42) + fg_code(200, 200, 200) + boxed_line(
            line,
            bw,
        ).drop_last() + style('0') + seq!['\n'],
        box_row(bw) == bg_code(35, 35, 42) + repeated(' ', bw) + style('0') + seq!['\n'],
{
    lemma_style_numbers();
    reveal(span_text);
    reveal(span_row);
    reveal(plain_row);
    reveal(box_row);
    reveal_strlit("\n");
    reveal_strlit("    ");
    assert("\n"@ =~= seq!['\n']);
    if line.len() > 0 {
        assert(line[line.len() - 1] != '\n');
    }
    law_without_newlines_drops_line_feeds(line, n);
    let back = bg_code(35, 35, 42);
    let fore = fg_code(200, 200, 200);
    let inner = "    "@ + spans_text(spans) + repeated(' ', padding(bw, 4 + spans_len(spans)));
    assert(span_row(spans, bw) =~= back + inner + style('0') + seq!['\n']);
    let plain = "    "@ + line + repeated(' ', padding(bw, 4 + byte_len(line)));
    assert(boxed_line(line, bw).drop_last() =~= plain);
    assert(plain_row(line, bw) =~= back + fore + plain + style('0') + seq!['\n']);
}

/// The colors that the highlighter's themes use are shown as what they are: 24-bit colors by their
/// parts, grays and the color cube of the palette by their level, and the named ones close to
/// their names, the rest of them in the color of plain code.
pub proof fn law_colors_of_code(
    r: u8,
    g: u8,
    b: u8,
    n: u8,
    i: int,
    j: int,
    k: int,
    other: Color,
)
    requires
        0 <= i < 6,
        0 <= j < 6,
        0 <= k < 6,
    ensures
        color_rgb(Color::Rgb(r, g, b)) == (r, g, b),
        n < 24 ==> color_rgb(Color::Indexed((232 + n) as u8)) == (
            (8 + 10 * n) as u8,
            (8 + 10 * n) as u8,
            (8 + 10 * n) as u8,
        ),
        color_rgb(Color::Indexed((16 + 36 * i + 6 * j + k) as u8)) == (
            (51 * i) as u8,
            (51 * j) as u8,
            (51 * k) as u8,
        ),
        color_rgb(Color::Red) == (255u8, 80u8, 80u8),
        color_rgb(Color::Green) == (80u8, 255u8, 80u8),
        color_rgb(Color::Blue) == (80u8, 80u8, 255u8),
        color_rgb(Color::Yellow) == (255u8, 255u8, 80u8),
        color_rgb(Color::Cyan) == (80u8, 255u8, 255u8),
        color_rgb(Color::Magenta) == (255u8, 80u8, 255u8),
        color_rgb(Color::White) == (220u8, 220u8, 220u8),
        color_rgb(Color::Black) == (30u8, 30u8, 30u8),
        set![
            Color::Reset,
            Color::DarkGray,
            Color::LightRed,
            Color::LightGreen,
            Color::LightYellow,
            Color::LightBlue,
            Color::LightMagenta,
            Color::LightCyan,
            Color::LightWhite,
            Color::Other,
        ].contains(other) ==> color_rgb(other) == (200u8, 200u8, 200u8),
{
}

/// The sixteen basic colors of the palette: a bit each for red, green and blue, and one for bright.
pub proof fn law_basic_colors(n: u8)
    requires
        n < 16,
    ensures
        ({
            let (r, g, b) = color_rgb(Color::Indexed(n));
            let dark: u8 = if n >= 8 {
                85
            } else {
                0
            };
            let light: u8 = if n >= 8 {
                255
            } else {
                170
            };
            let red = n % 2 == 1;
            let green = (n / 2) % 2 == 1;
            let blue = (n / 4) % 2 == 1;
            &&& r == if red {
                light
            } else {
                dark
            }
            &&& b == if blue {
                light
            } else {
                dark
            }
            &&& n != 3 ==> g == if green {
                light
            } else {
                dark
            }
            &&& n == 3 ==> g == 85
        }),
{
}

/// The cells of a table row stand one after the other, each with spaces alone behind it, and each
/// row is a line.
pub proof fn law_cells_stand_one_after_the_other(
    headers: Seq<Seq<char>>,
    rows: Seq<Seq<Seq<char>>>,
    row: Seq<Seq<char>>,
    n: nat,
)
    ensures
        cells_text(headers, rows, row, n) == joined(first_cells(headers, rows, row, n)),
        rows_text(headers, rows, n) == first_lines(headers, rows, n),
    decreases n,
{
    reveal_strlit("\n");
    assert("\n"@ =~= seq!['\n']);
    if n > 0 {
        let m = (n - 1) as nat;
        law_cells_stand_one_after_the_other(headers, rows, row, m);
        let cells = first_cells(headers, rows, row, n);
        assert(cells.drop_last() =~= first_cells(headers, rows, row, m));
        let last = rows[n - 1];
        lemma_cells_are_joined(headers, rows, last, last.len());
    } else {
        assert(first_cells(headers, rows, row, 0) =~= Seq::empty());
    }
}

proof fn lemma_cells_are_joined(
    headers: Seq<Seq<char>>,
    rows: Seq<Seq<Seq<char>>>,
    row: Seq<Seq<char>>,
    n: nat,
)
    ensures
        cells_text(headers, rows, row, n) == joined(first_cells(headers, rows, row, n)),
    decreases n,
{
    if n > 0 {
        let m = (n - 1) as nat;
        lemma_cells_are_joined(headers, rows, row, m);
        let cells = first_cells(headers, rows, row, n);
        assert(cells.drop_last() =~= first_cells(headers, rows, row, m));
    } else {
        assert(first_cells(headers, rows, row, 0) =~= Seq::empty());
    }
}

} // verus!
