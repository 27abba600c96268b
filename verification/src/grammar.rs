//! Which code the highlighter can take. Its grammars keep what is open at a place of the code in a
//! buffer of 1024 bytes, and three of them abort the process on code that has too much open. A
//! fourth asks whether a character is a digit in a way that is defined up to U+00FF only.
use crate::text::{chars_of, same_text};
use vstd::prelude::*;

verus! {

/// How many characters a heredoc's word may have in Ruby: its length is kept in one byte.
pub const RUBY_WORD_LIMIT: u64 = 255;

/// How many bytes the open literals and heredocs may take in Ruby, next to two for their numbers.
pub const RUBY_STATE_LIMIT: u64 = 1022;

/// How many indentations may be open in Python: they take two bytes each, next to at most 257 bytes
/// for strings.
pub const PYTHON_INDENT_LIMIT: u64 = 383;

/// How many indentations may be open in YAML: they take four bytes each, next to ten others.
pub const YAML_INDENT_LIMIT: u64 = 253;

/// Whether a character can start a string, a symbol, a regular expression or a subshell in Ruby.
pub open spec fn starts_literal(c: char) -> bool {
    c == '"' || c == '\'' || c == '`' || c == '/' || c == '%'
}

/// Whether a character can stand in a heredoc's word without quotes. Every character beyond ASCII
/// is taken for one that can.
pub open spec fn is_word_char(c: char) -> bool {
    ||| 'a' <= c <= 'z'
    ||| 'A' <= c <= 'Z'
    ||| '0' <= c <= '9'
    ||| c == '_'
    ||| c > '\u{7f}'
}

/// How many word characters stand in a row from a position on.
pub open spec fn word_len(s: Seq<char>, i: int) -> nat
    decreases s.len() - i,
{
    if 0 <= i < s.len() && is_word_char(s[i]) {
        1 + word_len(s, i + 1)
    } else {
        0
    }
}

/// How many characters stand before the next quote, from a position on.
pub open spec fn quoted_len(s: Seq<char>, i: int, quote: char) -> nat
    decreases s.len() - i,
{
    if 0 <= i < s.len() && s[i] != quote {
        1 + quoted_len(s, i + 1, quote)
    } else {
        0
    }
}

/// The number of characters of a heredoc's word that starts at a position.
pub open spec fn heredoc_word_len(s: Seq<char>, i: int) -> nat {
    if i < s.len() && (s[i] == '\'' || s[i] == '"' || s[i] == '`') {
        quoted_len(s, i + 1, s[i])
    } else {
        word_len(s, i)
    }
}

/// The number of characters of the word of the heredoc that `<<` opens at a position; zero where
/// none is opened.
pub open spec fn heredoc_len(s: Seq<char>, i: int) -> nat {
    if i + 1 < s.len() && s[i] == '<' && s[i + 1] == '<' {
        if i + 2 < s.len() && (s[i + 2] == '-' || s[i + 2] == '~') {
            heredoc_word_len(s, i + 3)
        } else {
            heredoc_word_len(s, i + 2)
        }
    } else {
        0
    }
}

/// How many bytes the grammar of Ruby keeps for what opens at a position, at most.
pub open spec fn ruby_cost(s: Seq<char>, i: int) -> nat {
    if starts_literal(s[i]) {
        5
    } else if heredoc_len(s, i) > 0 {
        heredoc_len(s, i) + 4
    } else {
        0
    }
}

/// How many bytes the grammar of Ruby keeps for what opens at the first `n` positions, at most.
pub open spec fn ruby_state(s: Seq<char>, n: nat) -> nat
    decreases n,
{
    if n == 0 {
        0
    } else {
        ruby_state(s, (n - 1) as nat) + ruby_cost(s, n - 1)
    }
}

/// Whether one of the characters from a position up to another is beyond ASCII.
pub open spec fn is_wide_between(s: Seq<char>, i: int, j: int) -> bool {
    exists|k: int| i <= k < j && k < s.len() && #[trigger] s[k] > '\u{7f}'
}

/// Whether the bytes for some of the heredocs that open at the first `n` positions may add up to a
/// number that leaves this rest by five. A word may end before a character beyond ASCII or go on,
/// so one with such a character may lead to any rest.
pub open spec fn may_leave(s: Seq<char>, n: nat, rest: int) -> bool
    decreases n,
{
    if n == 0 {
        rest == 0
    } else {
        let len = heredoc_len(s, n - 1);
        ||| may_leave(s, (n - 1) as nat, rest)
        ||| len > 0 && (is_wide_between(s, n - 1, n - 1 + 4 + len) || may_leave(
            s,
            (n - 1) as nat,
            (rest - len - 4) % 5,
        ))
    }
}

/// Ruby code with words that fit a byte and in which no literals and heredocs overrun the buffer.
/// The grammar keeps nothing of what does not fit, but counts two bytes of a heredoc less than it
/// keeps, so that it can keep 1025 bytes. They are two for the numbers, five for each open literal,
/// and the length of the word and four for each open heredoc. Then the heredocs take a number of
/// bytes that leaves the rest three by five.
pub open spec fn is_fitting_ruby(s: Seq<char>) -> bool {
    &&& forall|i: int| 0 <= i < s.len() ==> #[trigger] heredoc_len(s, i) <= RUBY_WORD_LIMIT
    &&& ruby_state(s, s.len()) <= RUBY_STATE_LIMIT || !may_leave(s, s.len(), 3)
}

/// Whether a line end at a position belongs to a line that a backslash continues.
pub open spec fn is_continued(s: Seq<char>, i: int) -> bool {
    ||| i >= 1 && s[i - 1] == '\\'
    ||| i >= 2 && s[i] == '\n' && s[i - 1] == '\r' && s[i - 2] == '\\'
}

/// How wide the white space before a position is, over backslashes and the line ends behind them: a
/// tab counts eight columns.
pub open spec fn white_width(s: Seq<char>, i: int) -> nat
    decreases i,
{
    if i <= 0 || i > s.len() {
        0
    } else if s[i - 1] == ' ' {
        white_width(s, i - 1) + 1
    } else if s[i - 1] == '\t' {
        white_width(s, i - 1) + 8
    } else if s[i - 1] == '\\' || ((s[i - 1] == '\n' || s[i - 1] == '\r') && is_continued(
        s,
        i - 1,
    )) {
        white_width(s, i - 1)
    } else {
        0
    }
}

/// How many line feeds there are among the first `n` characters.
pub open spec fn line_feeds(s: Seq<char>, n: nat) -> nat
    decreases n,
{
    if n == 0 {
        0
    } else {
        line_feeds(s, (n - 1) as nat) + if s[n - 1] == '\n' {
            1nat
        } else {
            0
        }
    }
}

/// Python code in which too many indentations cannot be open. Each open one is that of another line
/// and wider than the one before it, so there are not more than line feeds, nor than columns of
/// white space.
pub open spec fn is_shallow_python(s: Seq<char>) -> bool {
    ||| line_feeds(s, s.len()) <= PYTHON_INDENT_LIMIT
    ||| forall|i: int| 0 <= i <= s.len() ==> #[trigger] white_width(s, i) <= PYTHON_INDENT_LIMIT
}

/// Whether a character beyond U+00FF follows from a position on, behind digits and dots.
pub open spec fn is_wide_behind_digits(s: Seq<char>, i: int) -> bool
    decreases s.len() - i,
{
    if 0 <= i < s.len() {
        if '0' <= s[i] <= '9' || s[i] == '.' {
            is_wide_behind_digits(s, i + 1)
        } else {
            s[i] > '\u{ff}'
        }
    } else {
        false
    }
}

/// Bash code without a character beyond U+00FF where a brace may start a range of numbers.
pub open spec fn is_narrow_bash(s: Seq<char>) -> bool {
    forall|i: int| 0 <= i < s.len() && #[trigger] s[i] == '{' ==> !is_wide_behind_digits(s, i + 1)
}

/// Whether a position holds a blank, a line end or a zero character, or is the end.
pub open spec fn is_blank_at(s: Seq<char>, i: int) -> bool {
    i >= s.len() || s[i] == ' ' || s[i] == '\t' || s[i] == '\n' || s[i] == '\r' || s[i] == '\0'
}

/// Whether a position holds what may open an indentation in YAML: an item, a key, a value, or a
/// block of text.
pub open spec fn opens_indent(s: Seq<char>, i: int) -> bool {
    ||| (s[i] == '-' || s[i] == '?' || s[i] == ':') && is_blank_at(s, i + 1)
    ||| (s[i] == '|' || s[i] == '>') && (is_blank_at(s, i + 1) || s[i + 1] == '+' || s[i + 1] == '-'
        || '1' <= s[i + 1] <= '9')
}

/// How many of the first `n` positions hold what may open an indentation.
pub open spec fn yaml_indents(s: Seq<char>, n: nat) -> nat
    decreases n,
{
    if n == 0 {
        0
    } else {
        yaml_indents(s, (n - 1) as nat) + if opens_indent(s, n - 1) {
            1nat
        } else {
            0
        }
    }
}

/// Whether the highlighter can take a code in a language. What is left out:
/// - Ruby with a heredoc whose word has more than 255 characters, or with so many quotes, slashes,
///   percent signs and heredocs that they would not fit the buffer if none of what they start came
///   to an end, if some of the heredocs may take a number of bytes that leaves the rest three by
///   five;
/// - Python with more than 383 line feeds and with white space of more than 383 columns in a line;
/// - YAML with more than 253 places that may open an indentation;
/// - Bash with a character beyond U+00FF behind an opening brace, or behind one and digits and dots.
pub open spec fn is_highlightable(code: Seq<char>, lang: Seq<char>) -> bool {
    &&& lang == "bash"@ || lang == "sh"@ || lang == "shell"@ || lang == "zsh"@ ==> is_narrow_bash(
        code,
    )
    &&& lang == "ruby"@ || lang == "rb"@ ==> is_fitting_ruby(code)
    &&& lang == "python"@ || lang == "py"@ ==> is_shallow_python(code)
    &&& lang == "yaml"@ || lang == "yml"@ ==> yaml_indents(code, code.len()) <= YAML_INDENT_LIMIT
}

/// The number of characters of a heredoc's word that starts at a position.
fn measure_word(s: &[char], start: usize) -> (n: usize)
    requires
        start <= s@.len(),
    ensures
        n == heredoc_word_len(s@, start as int),
{
    if start < s.len() && (s[start] == '\'' || s[start] == '"' || s[start] == '`') {
        let quote = s[start];
        let mut i: usize = start + 1;
        while i < s.len() && s[i] != quote
            invariant
                start < i <= s@.len(),
                quoted_len(s@, start + 1, quote) == (i - start - 1) + quoted_len(
                    s@,
                    i as int,
                    quote,
                ),
            decreases s@.len() - i,
        {
            i += 1;
        }
        i - start - 1
    } else {
        let mut i: usize = start;
        while i < s.len() && ((s[i] >= 'a' && s[i] <= 'z') || (s[i] >= 'A' && s[i] <= 'Z') || (s[i]
            >= '0' && s[i] <= '9') || s[i] == '_' || s[i] > '\u{7f}')
            invariant
                start <= i <= s@.len(),
                word_len(s@, start as int) == (i - start) + word_len(s@, i as int),
            decreases s@.len() - i,
        {
            i += 1;
        }
        i - start
    }
}

/// The number of characters of the word of the heredoc that is opened at a position.
fn measure_heredoc(s: &[char], i: usize) -> (n: usize)
    requires
        i < s@.len(),
    ensures
        n == heredoc_len(s@, i as int),
{
    let len: usize = s.len();
    if len - i >= 2 && s[i] == '<' && s[i + 1] == '<' {
        if len - i >= 3 && (s[i + 2] == '-' || s[i + 2] == '~') {
            measure_word(s, i + 3)
        } else {
            measure_word(s, i + 2)
        }
    } else {
        0
    }
}

/// Whether one of the characters from a position up to another is beyond ASCII.
fn wide_between(s: &[char], i: usize, j: usize) -> (r: bool)
    requires
        i <= j,
    ensures
        r == is_wide_between(s@, i as int, j as int),
{
    let mut k: usize = i;
    while k < j && k < s.len()
        invariant
            i <= k <= j,
            forall|m: int| i <= m < k && m < s@.len() ==> !(#[trigger] s@[m] > '\u{7f}'),
        decreases j - k,
    {
        if s[k] > '\u{7f}' {
            return true;
        }
        k += 1;
    }
    false
}

/// Which rests by five the bytes may leave when those of one more heredoc may be added.
fn more_rests(rests: &Vec<bool>, len: usize, wide: bool) -> (r: Vec<bool>)
    requires
        rests@.len() == 5,
        len <= RUBY_WORD_LIMIT,
    ensures
        r@.len() == 5,
        forall|k: int|
            0 <= k < 5 ==> #[trigger] r@[k] == (rests@[k] || wide || rests@[(k - len - 4) % 5]),
{
    let mut r: Vec<bool> = Vec::new();
    let mut k: usize = 0;
    while k < 5
        invariant
            k <= 5,
            len <= RUBY_WORD_LIMIT,
            rests@.len() == 5,
            r@.len() == k,
            forall|m: int|
                0 <= m < k ==> #[trigger] r@[m] == (rests@[m] || wide || rests@[(m - len - 4) % 5]),
        decreases 5 - k,
    {
        let from: usize = (k + 6 - len % 5) % 5;
        assert(from == (k - len - 4) % 5);
        r.push(rests[k] || wide || rests[from]);
        k += 1;
    }
    r
}

/// Whether Ruby code has words that fit and no literals and heredocs that overrun the buffer.
fn fitting_ruby(s: &[char]) -> (r: bool)
    ensures
        r == is_fitting_ruby(s@),
{
    let mut state: u64 = 0;
    let mut rests: Vec<bool> = vec![true, false, false, false, false];
    let mut i: usize = 0;
    while i < s.len()
        invariant
            i <= s@.len(),
            rests@.len() == 5,
            state == ruby_state(s@, i as nat) || (state == u64::MAX && ruby_state(s@, i as nat)
                >= u64::MAX),
            forall|k: int| 0 <= k < i ==> #[trigger] heredoc_len(s@, k) <= RUBY_WORD_LIMIT,
            forall|k: int| 0 <= k < 5 ==> #[trigger] rests@[k] == may_leave(s@, i as nat, k),
        decreases s@.len() - i,
    {
        let len: usize = measure_heredoc(s, i);
        if len as u64 > RUBY_WORD_LIMIT {
            return false;
        }
        if len > 0 {
            let before = rests;
            let end: usize = i.saturating_add(len + 4);
            let wide = wide_between(s, i, end);
            assert(wide == is_wide_between(s@, i as int, i + 4 + len));
            rests = more_rests(&before, len, wide);
            assert forall|k: int| 0 <= k < 5 implies #[trigger] rests@[k] == may_leave(
                s@,
                (i + 1) as nat,
                k,
            ) by {
                let from = (k - len - 4) % 5;
                assert(before@[from] == may_leave(s@, i as nat, from));
                assert(before@[k] == may_leave(s@, i as nat, k));
            }
        }
        if s[i] == '"' || s[i] == '\'' || s[i] == '`' || s[i] == '/' || s[i] == '%' {
            state = state.saturating_add(5);
        } else if len > 0 {
            state = state.saturating_add(len as u64).saturating_add(4);
        }
        i += 1;
    }
    state <= RUBY_STATE_LIMIT || !rests[3]
}

/// Whether Python code is indented nowhere too far.
fn narrow_python(s: &[char]) -> (r: bool)
    ensures
        r == forall|i: int|
            0 <= i <= s@.len() ==> #[trigger] white_width(s@, i) <= PYTHON_INDENT_LIMIT,
{
    let mut width: u64 = 0;
    let mut i: usize = 0;
    while i < s.len()
        invariant
            i <= s@.len(),
            width == white_width(s@, i as int),
            forall|k: int| 0 <= k <= i ==> #[trigger] white_width(s@, k) <= PYTHON_INDENT_LIMIT,
        decreases s@.len() - i,
    {
        let c = s[i];
        let continued = (i >= 1 && s[i - 1] == '\\') || (i >= 2 && c == '\n' && s[i - 1] == '\r'
            && s[i - 2] == '\\');
        if c == ' ' {
            width = width + 1;
        } else if c == '\t' {
            width = width + 8;
        } else if c != '\\' && !((c == '\n' || c == '\r') && continued) {
            width = 0;
        }
        i += 1;
        assert(width == white_width(s@, i as int));
        if width > PYTHON_INDENT_LIMIT {
            return false;
        }
    }
    true
}

/// Whether Python code has few line feeds or is indented nowhere too far.
fn shallow_python(s: &[char]) -> (r: bool)
    ensures
        r == is_shallow_python(s@),
{
    let mut feeds: usize = 0;
    let mut i: usize = 0;
    while i < s.len()
        invariant
            i <= s@.len(),
            feeds <= i,
            feeds == line_feeds(s@, i as nat),
        decreases s@.len() - i,
    {
        if s[i] == '\n' {
            feeds += 1;
        }
        i += 1;
    }
    feeds as u64 <= PYTHON_INDENT_LIMIT || narrow_python(s)
}

/// Whether a character beyond U+00FF follows from a position on, behind digits and dots.
fn wide_behind_digits(s: &[char], start: usize) -> (r: bool)
    requires
        start <= s@.len(),
    ensures
        r == is_wide_behind_digits(s@, start as int),
{
    let mut i: usize = start;
    while i < s.len() && ((s[i] >= '0' && s[i] <= '9') || s[i] == '.')
        invariant
            start <= i <= s@.len(),
            is_wide_behind_digits(s@, start as int) == is_wide_behind_digits(s@, i as int),
        decreases s@.len() - i,
    {
        i += 1;
    }
    i < s.len() && s[i] > '\u{ff}'
}

/// Whether Bash code has no character beyond U+00FF where a brace may start a range of numbers.
fn narrow_bash(s: &[char]) -> (r: bool)
    ensures
        r == is_narrow_bash(s@),
{
    let mut i: usize = 0;
    while i < s.len()
        invariant
            i <= s@.len(),
            forall|k: int|
                0 <= k < i && #[trigger] s@[k] == '{' ==> !is_wide_behind_digits(s@, k + 1),
        decreases s@.len() - i,
    {
        if s[i] == '{' && wide_behind_digits(s, i + 1) {
            return false;
        }
        i += 1;
    }
    true
}

/// Whether a position holds a blank, a line end or a zero character, or is the end.
fn blank_at(s: &[char], i: usize) -> (r: bool)
    ensures
        r == is_blank_at(s@, i as int),
{
    i >= s.len() || s[i] == ' ' || s[i] == '\t' || s[i] == '\n' || s[i] == '\r' || s[i] == '\0'
}

/// Whether YAML code has few places that may open an indentation.
fn shallow_yaml(s: &[char]) -> (r: bool)
    ensures
        r == (yaml_indents(s@, s@.len()) <= YAML_INDENT_LIMIT),
{
    let mut indents: usize = 0;
    let mut i: usize = 0;
    while i < s.len()
        invariant
            i <= s@.len(),
            indents <= i,
            indents == yaml_indents(s@, i as nat),
        decreases s@.len() - i,
    {
        let c = s[i];
        let blank = blank_at(s, i + 1);
        let mark = if c == '-' || c == '?' || c == ':' {
            blank
        } else if c == '|' || c == '>' {
            blank || s[i + 1] == '+' || s[i + 1] == '-' || (s[i + 1] >= '1' && s[i + 1] <= '9')
        } else {
            false
        };
        assert(mark == opens_indent(s@, i as int));
        if mark {
            indents += 1;
        }
        i += 1;
    }
    indents as u64 <= YAML_INDENT_LIMIT
}

/// Whether the highlighter can take a code in a language.
pub fn highlightable(code: &str, lang: &str) -> (r: bool)
    ensures
        r == is_highlightable(code@, lang@),
{
    proof {
        lemma_languages_differ();
    }
    let chars = chars_of(code);
    if same_text(lang, "bash") || same_text(lang, "sh") || same_text(lang, "shell") || same_text(
        lang,
        "zsh",
    ) {
        narrow_bash(chars.as_slice())
    } else if same_text(lang, "ruby") || same_text(lang, "rb") {
        fitting_ruby(chars.as_slice())
    } else if same_text(lang, "python") || same_text(lang, "py") {
        shallow_python(chars.as_slice())
    } else if same_text(lang, "yaml") || same_text(lang, "yml") {
        shallow_yaml(chars.as_slice())
    } else {
        true
    }
}

/// Whether the first letter of a name is the given one.
spec fn starts_with(name: Seq<char>, c: char) -> bool {
    name.len() > 0 && name[0] == c
}

/// The names of a language have a first letter that those of the others lack.
proof fn lemma_languages_differ()
    ensures
        starts_with("bash"@, 'b') && starts_with("sh"@, 's') && starts_with("shell"@, 's')
            && starts_with("zsh"@, 'z'),
        starts_with("ruby"@, 'r') && starts_with("rb"@, 'r'),
        starts_with("python"@, 'p') && starts_with("py"@, 'p'),
        starts_with("yaml"@, 'y') && starts_with("yml"@, 'y'),
{
    reveal_strlit("bash");
    reveal_strlit("sh");
    reveal_strlit("shell");
    reveal_strlit("zsh");
    reveal_strlit("ruby");
    reveal_strlit("rb");
    reveal_strlit("python");
    reveal_strlit("py");
    reveal_strlit("yaml");
    reveal_strlit("yml");
}

/// Whether a language is one of the four whose grammars cannot take all code.
pub open spec fn is_guarded(lang: Seq<char>) -> bool {
    ||| lang == "bash"@ || lang == "sh"@ || lang == "shell"@ || lang == "zsh"@
    ||| lang == "ruby"@ || lang == "rb"@
    ||| lang == "python"@ || lang == "py"@
    ||| lang == "yaml"@ || lang == "yml"@
}

/// Code is taken in every language but four; Ruby is taken if it has no `<<`, Python if it has 383
/// line feeds at most, YAML if it has 253 marks at most, and Bash if it has no opening brace or no
/// character beyond U+00FF.
pub proof fn law_ordinary_code_is_taken(code: Seq<char>, lang: Seq<char>)
    ensures
        !is_guarded(lang) ==> is_highlightable(code, lang),
        (lang == "ruby"@ || lang == "rb"@) && (forall|i: int|
            0 <= i < code.len() - 1 ==> !(#[trigger] code[i] == '<' && code[i + 1] == '<'))
            ==> is_highlightable(code, lang),
        (lang == "python"@ || lang == "py"@) && code.filter(|c: char| c == '\n').len() <= 383
            ==> is_highlightable(code, lang),
        (lang == "yaml"@ || lang == "yml"@) && code.filter(
            |c: char| c == '-' || c == '?' || c == ':' || c == '|' || c == '>',
        ).len() <= 253 ==> is_highlightable(code, lang),
        (lang == "bash"@ || lang == "sh"@ || lang == "shell"@ || lang == "zsh"@) && ((forall|i: int|
            0 <= i < code.len() ==> #[trigger] code[i] != '{') || (forall|i: int|
            0 <= i < code.len() ==> #[trigger] code[i] <= '\u{ff}')) ==> is_highlightable(
            code,
            lang,
        ),
{
    lemma_languages_differ();
    if forall|i: int|
        0 <= i < code.len() - 1 ==> !(#[trigger] code[i] == '<' && code[i + 1] == '<') {
        assert forall|i: int| 0 <= i < code.len() implies #[trigger] heredoc_len(code, i) == 0 by {
            if i + 1 < code.len() {
                assert(!(code[i] == '<' && code[i + 1] == '<'));
            }
        }
        lemma_no_heredoc(code, code.len());
    }
    lemma_line_feeds_are_counted(code, code.len());
    assert(code.take(code.len() as int) =~= code);
    lemma_marks_are_counted(code, code.len());
    if forall|k: int| 0 <= k < code.len() ==> #[trigger] code[k] <= '\u{ff}' {
        assert forall|i: int| 0 <= i < code.len() && #[trigger] code[i] == '{' implies
            !is_wide_behind_digits(code, i + 1) by {
            lemma_narrow(code, i + 1);
        }
        assert(is_narrow_bash(code));
    }
}

/// Without heredocs nothing but a multiple of five is kept.
proof fn lemma_no_heredoc(s: Seq<char>, n: nat)
    requires
        n <= s.len(),
        forall|i: int| 0 <= i < s.len() ==> #[trigger] heredoc_len(s, i) == 0,
    ensures
        !may_leave(s, n, 3),
    decreases n,
{
    if n > 0 {
        lemma_no_heredoc(s, (n - 1) as nat);
        assert(heredoc_len(s, n - 1) == 0);
    }
}

/// The line feeds among the first characters are as many as these hold.
proof fn lemma_line_feeds_are_counted(s: Seq<char>, n: nat)
    requires
        n <= s.len(),
    ensures
        line_feeds(s, n) == s.take(n as int).filter(|c: char| c == '\n').len(),
    decreases n,
{
    let is_feed = |c: char| c == '\n';
    reveal(Seq::filter);
    if n == 0 {
        assert(s.take(0).filter(is_feed) =~= Seq::<char>::empty());
    } else {
        lemma_line_feeds_are_counted(s, (n - 1) as nat);
        assert(s.take(n as int).drop_last() =~= s.take(n - 1));
        assert(s.take(n as int).last() == s[n - 1]);
    }
}

/// There are not more indentations than marks.
proof fn lemma_marks_are_counted(s: Seq<char>, n: nat)
    requires
        n <= s.len(),
    ensures
        yaml_indents(s, n) <= s.take(n as int).filter(
            |c: char| c == '-' || c == '?' || c == ':' || c == '|' || c == '>',
        ).len(),
    decreases n,
{
    let is_mark = |c: char| c == '-' || c == '?' || c == ':' || c == '|' || c == '>';
    reveal(Seq::filter);
    if n == 0 {
        assert(s.take(0).filter(is_mark) =~= Seq::<char>::empty());
    } else {
        lemma_marks_are_counted(s, (n - 1) as nat);
        assert(s.take(n as int).drop_last() =~= s.take(n - 1));
        assert(s.take(n as int).last() == s[n - 1]);
    }
}

/// A text without wide characters has none behind digits.
proof fn lemma_narrow(s: Seq<char>, i: int)
    requires
        0 <= i,
        forall|k: int| 0 <= k < s.len() ==> #[trigger] s[k] <= '\u{ff}',
    ensures
        !is_wide_behind_digits(s, i),
    decreases s.len() - i,
{
    if i < s.len() {
        assert(s[i] <= '\u{ff}');
        lemma_narrow(s, i + 1);
    }
}

/// Code on which a grammar would fail is not taken, whatever is around it: Ruby with a heredoc
/// whose word has more than 255 letters, Bash with a character beyond U+00FF behind an opening
/// brace, YAML with more than 253 items in each other, and Python that goes on with white space of
/// more than 383 columns behind more than 383 line feeds.
pub proof fn law_failing_code_is_refused(
    before: Seq<char>,
    word: Seq<char>,
    wide: char,
    n: nat,
    after: Seq<char>,
)
    requires
        word.len() > 255,
        forall|i: int| 0 <= i < word.len() ==> 'A' <= #[trigger] word[i] <= 'Z',
        wide > '\u{ff}',
        n > 383,
    ensures
        !is_highlightable(before + seq!['<', '<'] + word + after, "ruby"@),
        !is_highlightable(before + seq!['<', '<'] + word + after, "rb"@),
        !is_highlightable(before + seq!['{', wide] + after, "bash"@),
        !is_highlightable(before + seq!['{', wide] + after, "sh"@),
        !is_highlightable(before + seq!['{', wide] + after, "shell"@),
        !is_highlightable(before + seq!['{', wide] + after, "zsh"@),
        !is_highlightable(Seq::new(2 * n, |i: int| if i % 2 == 0 { '-' } else { ' ' }), "yaml"@),
        !is_highlightable(Seq::new(2 * n, |i: int| if i % 2 == 0 { '-' } else { ' ' }), "yml"@),
        !is_highlightable(
            Seq::new(n, |i: int| '\n') + Seq::new(n, |i: int| ' ') + after,
            "python"@,
        ),
        !is_highlightable(Seq::new(n, |i: int| '\n') + Seq::new(n, |i: int| ' ') + after, "py"@),
{
    lemma_languages_differ();
    let ruby = before + seq!['<', '<'] + word + after;
    let at = before.len() as int;
    assert(ruby[at] == '<' && ruby[at + 1] == '<');
    assert(ruby[at + 2] == word[0]);
    assert forall|i: int| 0 <= i < word.len() implies 'A' <= #[trigger] ruby[at + 2 + i] <= 'Z' by {
        assert(ruby[at + 2 + i] == word[i]);
    }
    lemma_long_word(ruby, at + 2, word.len());
    assert(heredoc_len(ruby, at) > RUBY_WORD_LIMIT);
    let bash = before + seq!['{', wide] + after;
    assert(bash[at] == '{' && bash[at + 1] == wide);
    assert(is_wide_behind_digits(bash, at + 1));
    let yaml = Seq::new(2 * n, |i: int| if i % 2 == 0 { '-' } else { ' ' });
    lemma_nested_items(yaml, n, n);
    let feeds = Seq::new(n, |i: int| '\n');
    let python = feeds + Seq::new(n, |i: int| ' ') + after;
    lemma_feeds_before(python, n, python.len());
    lemma_spaces_behind(python, n as int, n);
    assert(white_width(python, n as int + n) > PYTHON_INDENT_LIMIT);
}

/// Letters in a row are that long a word.
proof fn lemma_long_word(s: Seq<char>, at: int, n: nat)
    requires
        0 <= at,
        at + n <= s.len(),
        forall|i: int| 0 <= i < n ==> 'A' <= #[trigger] s[at + i] <= 'Z',
    ensures
        word_len(s, at) >= n,
    decreases n,
{
    if n > 0 {
        assert('A' <= s[at + 0] <= 'Z');
        assert forall|i: int| 0 <= i < n - 1 implies 'A' <= #[trigger] s[at + 1 + i] <= 'Z' by {
            assert(s[at + 1 + i] == s[at + (i + 1)]);
        }
        lemma_long_word(s, at + 1, (n - 1) as nat);
    }
}

/// Items in each other open that many indentations.
proof fn lemma_nested_items(s: Seq<char>, n: nat, k: nat)
    requires
        s == Seq::new(2 * n, |i: int| if i % 2 == 0 { '-' } else { ' ' }),
        k <= n,
    ensures
        yaml_indents(s, 2 * k) >= k,
    decreases k,
{
    if k > 0 {
        let j = (2 * k - 1) as nat;
        lemma_nested_items(s, n, (k - 1) as nat);
        assert(s[j - 1] == '-' && s[j as int] == ' ');
        assert(opens_indent(s, j - 1));
        assert(yaml_indents(s, j) == yaml_indents(s, (j - 1) as nat) + 1);
        assert(yaml_indents(s, 2 * k) >= yaml_indents(s, j));
    }
}

/// Line feeds at the start are counted.
proof fn lemma_feeds_before(s: Seq<char>, n: nat, m: nat)
    requires
        n <= s.len(),
        m <= s.len(),
        forall|i: int| 0 <= i < n ==> #[trigger] s[i] == '\n',
    ensures
        line_feeds(s, m) >= if m < n {
            m
        } else {
            n
        },
    decreases m,
{
    if m > 0 {
        lemma_feeds_before(s, n, (m - 1) as nat);
        if m <= n {
            assert(s[m - 1] == '\n');
        }
    }
}

/// Spaces in a row are that wide.
proof fn lemma_spaces_behind(s: Seq<char>, at: int, n: nat)
    requires
        0 <= at,
        at + n <= s.len(),
        forall|i: int| at <= i < at + n ==> #[trigger] s[i] == ' ',
    ensures
        white_width(s, at + n) >= n,
    decreases n,
{
    if n > 0 {
        lemma_spaces_behind(s, at, (n - 1) as nat);
        assert(s[at + n - 1] == ' ');
    }
}

} // verus!
