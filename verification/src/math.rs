//! LaTeX math shown as Unicode text.
use crate::text::{
    chars_of, extend, find, find_from, lemma_find_from, lemma_find_from_shift, replace, replaced,
    string_of,
};
use vstd::prelude::*;
use vstd::slice::slice_subrange;

verus! {

/// Fractions that have a character of their own.
pub const VULGAR_FRACTIONS: [(&'static str, &'static str); 4] = [
    ("\\frac{1}{2}", "½"),
    ("\\frac{1}{3}", "⅓"),
    ("\\frac{1}{4}", "¼"),
    ("\\frac{3}{4}", "¾"),
];

/// Greek letters.
pub const GREEK: [(&'static str, &'static str); 31] = [
    ("\\alpha", "α"),
    ("\\beta", "β"),
    ("\\gamma", "γ"),
    ("\\delta", "δ"),
    ("\\epsilon", "ε"),
    ("\\zeta", "ζ"),
    ("\\eta", "η"),
    ("\\theta", "θ"),
    ("\\iota", "ι"),
    ("\\kappa", "κ"),
    ("\\lambda", "λ"),
    ("\\mu", "μ"),
    ("\\nu", "ν"),
    ("\\xi", "ξ"),
    ("\\pi", "π"),
    ("\\rho", "ρ"),
    ("\\sigma", "σ"),
    ("\\tau", "τ"),
    ("\\phi", "φ"),
    ("\\chi", "χ"),
    ("\\psi", "ψ"),
    ("\\omega", "ω"),
    ("\\Sigma", "Σ"),
    ("\\Pi", "Π"),
    ("\\Omega", "Ω"),
    ("\\Delta", "Δ"),
    ("\\Gamma", "Γ"),
    ("\\Lambda", "Λ"),
    ("\\Phi", "Φ"),
    ("\\Psi", "Ψ"),
    ("\\Theta", "Θ"),
];

/// Operators, relations, arrows, brackets and function names, in the order in which they are
/// replaced: where one command begins another, the earlier entry wins.
pub const OPERATORS: [(&'static str, &'static str); 51] = [
    ("\\times", "×"),
    ("\\div", "÷"),
    ("\\pm", "±"),
    ("\\mp", "∓"),
    ("\\cdot", "·"),
    ("\\cdots", "⋯"),
    ("\\ldots", "…"),
    ("\\leq", "≤"),
    ("\\geq", "≥"),
    ("\\neq", "≠"),
    ("\\approx", "≈"),
    ("\\equiv", "≡"),
    ("\\infty", "∞"),
    ("\\sum", "∑"),
    ("\\prod", "∏"),
    ("\\int", "∫"),
    ("\\partial", "∂"),
    ("\\nabla", "∇"),
    ("\\forall", "∀"),
    ("\\exists", "∃"),
    ("\\in", "∈"),
    ("\\notin", "∉"),
    ("\\subset", "⊂"),
    ("\\supset", "⊃"),
    ("\\subseteq", "⊆"),
    ("\\supseteq", "⊇"),
    ("\\cup", "∪"),
    ("\\cap", "∩"),
    ("\\emptyset", "∅"),
    ("\\to", "→"),
    ("\\rightarrow", "→"),
    ("\\leftarrow", "←"),
    ("\\Rightarrow", "⇒"),
    ("\\Leftarrow", "⇐"),
    ("\\leftrightarrow", "↔"),
    ("\\Leftrightarrow", "⇔"),
    ("\\sqrt", "√"),
    ("\\langle", "⟨"),
    ("\\rangle", "⟩"),
    ("\\lceil", "⌈"),
    ("\\rceil", "⌉"),
    ("\\lfloor", "⌊"),
    ("\\rfloor", "⌋"),
    ("\\cos", "cos"),
    ("\\sin", "sin"),
    ("\\tan", "tan"),
    ("\\log", "log"),
    ("\\ln", "ln"),
    ("\\lim", "lim"),
    ("\\max", "max"),
    ("\\min", "min"),
];

/// Superscripts, braced and bare.
pub const SUPERSCRIPTS: [(&'static str, &'static str); 17] = [
    ("^{0}", "⁰"),
    ("^{1}", "¹"),
    ("^{2}", "²"),
    ("^{3}", "³"),
    ("^{4}", "⁴"),
    ("^{5}", "⁵"),
    ("^{6}", "⁶"),
    ("^{7}", "⁷"),
    ("^{8}", "⁸"),
    ("^{9}", "⁹"),
    ("^{n}", "ⁿ"),
    ("^{i}", "ⁱ"),
    ("^0", "⁰"),
    ("^1", "¹"),
    ("^2", "²"),
    ("^3", "³"),
    ("^n", "ⁿ"),
];

/// Subscripts.
pub const SUBSCRIPTS: [(&'static str, &'static str); 12] = [
    ("_{0}", "₀"),
    ("_{1}", "₁"),
    ("_{2}", "₂"),
    ("_{3}", "₃"),
    ("_{4}", "₄"),
    ("_{5}", "₅"),
    ("_{6}", "₆"),
    ("_{7}", "₇"),
    ("_{8}", "₈"),
    ("_{9}", "₉"),
    ("_{i}", "ᵢ"),
    ("_{n}", "ₙ"),
];

/// Delimiter sizes, spaces and font commands, which leave only what they apply to.
pub const LAYOUT: [(&'static str, &'static str); 7] = [
    ("\\left", ""),
    ("\\right", ""),
    ("\\,", " "),
    ("\\;", " "),
    ("\\quad", "  "),
    ("\\text{", ""),
    ("\\mathbf{", ""),
];

/// The text after each rule in turn has replaced its command by its symbol.
pub open spec fn rewritten(s: Seq<char>, rules: Seq<(&'static str, &'static str)>) -> Seq<char>
    decreases rules.len(),
{
    if rules.len() == 0 {
        s
    } else {
        replaced(rewritten(s, rules.drop_last()), rules.last().0@, rules.last().1@)
    }
}

/// Where the first `\frac{` of a text starts, and where its numerator and its denominator end,
/// if it has both: each ends at the first closing brace, and the denominator's opening brace
/// follows at once.
pub open spec fn first_fraction(s: Seq<char>) -> Option<(int, int, int)> {
    let open = "\\frac{"@;
    match find_from(s, open, 0) {
        None => None,
        Some(start) => match find_from(s, seq!['}'], start + open.len()) {
            None => None,
            Some(a) => if a + 1 < s.len() && s[a + 1] == '{' {
                match find_from(s, seq!['}'], a + 2) {
                    None => None,
                    Some(b) => Some((start, a, b)),
                }
            } else {
                None
            },
        },
    }
}

/// The text with its first fraction, at the places given, written as `(a)/(b)`.
pub open spec fn fraction_unfolded(s: Seq<char>, start: int, a: int, b: int) -> Seq<char> {
    s.take(start) + seq!['('] + s.subrange(start + "\\frac{"@.len(), a) + seq![')', '/', '(']
        + s.subrange(a + 2, b) + seq![')'] + s.skip(b + 1)
}

/// The text with fractions written as `(a)/(b)`, one after the other from the left, until the
/// first one left has no numerator or no denominator.
pub open spec fn fractions_unfolded(s: Seq<char>) -> Seq<char>
    decreases s.len(),
{
    match first_fraction(s) {
        None => s,
        Some((start, a, b)) => {
            proof {
                lemma_fraction_shrinks(s);
            }
            fractions_unfolded(fraction_unfolded(s, start, a, b))
        },
    }
}

/// Unfolding a fraction makes the text shorter.
pub proof fn lemma_fraction_shrinks(s: Seq<char>)
    ensures
        match first_fraction(s) {
            None => true,
            Some((start, a, b)) => {
                &&& 0 <= start
                &&& start + "\\frac{"@.len() <= a
                &&& a + 2 <= b < s.len()
                &&& fraction_unfolded(s, start, a, b).len() < s.len()
            },
        },
{
    reveal_strlit("\\frac{");
    let open = "\\frac{"@;
    lemma_find_from(s, open, 0);
    if let Some(start) = find_from(s, open, 0) {
        lemma_find_from(s, seq!['}'], start + open.len());
        if let Some(a) = find_from(s, seq!['}'], start + open.len()) {
            lemma_find_from(s, seq!['}'], a + 2);
        }
    }
}

/// Whether a character is no brace.
pub open spec fn no_brace(c: char) -> bool {
    c != '{' && c != '}'
}

/// A formula as Unicode text: commands become symbols, fractions that are left become `(a)/(b)`,
/// and what is left of the markup's braces goes.
pub open spec fn math_text(source: Seq<char>) -> Seq<char> {
    let s = rewritten(source, VULGAR_FRACTIONS@);
    let s = rewritten(s, GREEK@);
    let s = rewritten(s, OPERATORS@);
    let s = rewritten(s, SUPERSCRIPTS@);
    let s = rewritten(s, SUBSCRIPTS@);
    let s = fractions_unfolded(s);
    let s = rewritten(s, LAYOUT@);
    s.filter(|c: char| no_brace(c))
}

/// Applies each rule in turn.
fn rewrite(chars: Vec<char>, rules: &[(&'static str, &'static str)]) -> (r: Vec<char>)
    ensures
        r@ == rewritten(chars@, rules@),
{
    let mut r = chars;
    let mut i: usize = 0;
    assert(rules@.take(0) =~= Seq::empty());
    while i < rules.len()
        invariant
            i <= rules@.len(),
            r@ == rewritten(chars@, rules@.take(i as int)),
        decreases rules@.len() - i,
    {
        let (command, symbol) = rules[i];
        r = replace(r.as_slice(), command, symbol);
        assert(rules@.take(i + 1).drop_last() =~= rules@.take(i as int));
        i += 1;
    }
    assert(rules@.take(rules@.len() as int) =~= rules@);
    r
}

/// Writes fractions as `(a)/(b)`.
fn unfold_fractions(chars: Vec<char>) -> (r: Vec<char>)
    ensures
        r@ == fractions_unfolded(chars@),
{
    let open = chars_of("\\frac{");
    let close: Vec<char> = vec!['}'];
    assert(close@ =~= seq!['}']);
    let mut r = chars;
    loop
        invariant
            open@ == "\\frac{"@,
            close@ == seq!['}'],
            fractions_unfolded(chars@) == fractions_unfolded(r@),
        ensures
            r@ == fractions_unfolded(chars@),
        decreases r@.len(),
    {
        let len: usize = r.len();
        let ghost before = r@;
        proof {
            lemma_fraction_shrinks(before);
        }
        if let Some(start) = find(r.as_slice(), open.as_slice(), 0) {
            if let Some(a) = find(r.as_slice(), close.as_slice(), start + open.len()) {
                if a + 1 < len && r[a + 1] == '{' {
                    if let Some(b) = find(r.as_slice(), close.as_slice(), a + 2) {
                        r = unfold_fraction(r.as_slice(), start, start + open.len(), a, b);
                        assert(r@ == fraction_unfolded(before, start as int, a as int, b as int));
                        continue;
                    }
                }
            }
        }
        break;
    }
    r
}

/// Writes the fraction whose numerator stands in `num..a` and whose denominator stands in
/// `a + 2..b` as `(a)/(b)`.
fn unfold_fraction(s: &[char], start: usize, num: usize, a: usize, b: usize) -> (r: Vec<char>)
    requires
        start <= num <= a,
        a + 2 <= b < s@.len(),
    ensures
        r@ == s@.take(start as int) + seq!['('] + s@.subrange(num as int, a as int) + seq![
            ')',
            '/',
            '(',
        ] + s@.subrange(a + 2, b as int) + seq![')'] + s@.skip(b + 1),
{
    let len: usize = s.len();
    let mut r: Vec<char> = Vec::new();
    extend(&mut r, slice_subrange(s, 0, start));
    r.push('(');
    extend(&mut r, slice_subrange(s, num, a));
    r.push(')');
    r.push('/');
    r.push('(');
    extend(&mut r, slice_subrange(s, a + 2, b));
    r.push(')');
    extend(&mut r, slice_subrange(s, b + 1, len));
    assert(r@ =~= s@.take(start as int) + seq!['('] + s@.subrange(num as int, a as int) + seq![
        ')',
        '/',
        '(',
    ] + s@.subrange(a + 2, b as int) + seq![')'] + s@.skip(b + 1));
    r
}

/// Drops the braces.
fn drop_braces(chars: Vec<char>) -> (r: Vec<char>)
    ensures
        r@ == chars@.filter(|c: char| no_brace(c)),
{
    let ghost keep = |c: char| no_brace(c);
    let mut r: Vec<char> = Vec::new();
    let mut i: usize = 0;
    proof {
        reveal(Seq::filter);
        assert(chars@.take(0).filter(keep) =~= Seq::empty());
    }
    while i < chars.len()
        invariant
            i <= chars@.len(),
            keep == (|c: char| no_brace(c)),
            r@ == chars@.take(i as int).filter(keep),
        decreases chars@.len() - i,
    {
        proof {
            reveal(Seq::filter);
            assert(chars@.take(i + 1).drop_last() =~= chars@.take(i as int));
        }
        if chars[i] != '{' && chars[i] != '}' {
            r.push(chars[i]);
        }
        i += 1;
    }
    assert(chars@.take(chars@.len() as int) =~= chars@);
    r
}

/// A formula as Unicode text.
pub fn unicode_math(source: &str) -> (r: String)
    ensures
        r@ == math_text(source@),
{
    let chars = rewrite(chars_of(source), &VULGAR_FRACTIONS);
    let chars = rewrite(chars, &GREEK);
    let chars = rewrite(chars, &OPERATORS);
    let chars = rewrite(chars, &SUPERSCRIPTS);
    let chars = rewrite(chars, &SUBSCRIPTS);
    let chars = unfold_fractions(chars);
    let chars = rewrite(chars, &LAYOUT);
    let chars = drop_braces(chars);
    string_of(chars.as_slice())
}

/// Whether a character starts no command, superscript or subscript and is no brace.
pub open spec fn is_plain(c: char) -> bool {
    c != '\\' && c != '^' && c != '_' && no_brace(c)
}

/// Whether every command of the table starts with a character that plain text lacks.
pub open spec fn all_marked(rules: Seq<(&'static str, &'static str)>) -> bool {
    forall|k: int| 0 <= k < rules.len() ==> is_marked(#[trigger] rules[k].0@)
}

/// Whether a command starts with a character that plain text lacks.
pub open spec fn is_marked(command: Seq<char>) -> bool {
    command.len() > 0 && !is_plain(command[0])
}

/// The shown text of a formula holds no brace.
pub proof fn law_math_text_has_no_brace(source: Seq<char>)
    ensures
        forall|i: int| 0 <= i < math_text(source).len() ==> no_brace(math_text(source)[i]),
{
    let s = rewritten(
        fractions_unfolded(
            rewritten(
                rewritten(
                    rewritten(rewritten(rewritten(source, VULGAR_FRACTIONS@), GREEK@), OPERATORS@),
                    SUPERSCRIPTS@,
                ),
                SUBSCRIPTS@,
            ),
        ),
        LAYOUT@,
    );
    broadcast use vstd::seq_lib::group_filter_ensures;

    assert(math_text(source) == s.filter(|c: char| no_brace(c)));
}

/// When the fractions are unfolded, the first `\frac{` that is left, if any, lacks its numerator's
/// end or its denominator.
pub proof fn law_no_fraction_left(s: Seq<char>)
    ensures
        first_fraction(fractions_unfolded(s)) is None,
    decreases s.len(),
{
    if let Some((start, a, b)) = first_fraction(s) {
        lemma_fraction_shrinks(s);
        law_no_fraction_left(fraction_unfolded(s, start, a, b));
    }
}

/// Whether a text has no backslash, caret, underscore or brace.
pub open spec fn all_plain(s: Seq<char>) -> bool {
    forall|i: int| 0 <= i < s.len() ==> is_plain(#[trigger] s[i])
}

/// What stands before the first backslash, caret, underscore or brace of a formula is shown as it
/// stands, and changes nothing of how the rest is shown.
pub proof fn law_plain_prefix_unchanged(plain: Seq<char>, rest: Seq<char>)
    requires
        all_plain(plain),
    ensures
        math_text(plain + rest) == plain + math_text(rest),
{
    lemma_tables_marked();
    let s = rest;
    lemma_rewritten_prefix(plain, s, VULGAR_FRACTIONS@);
    let s = rewritten(s, VULGAR_FRACTIONS@);
    lemma_rewritten_prefix(plain, s, GREEK@);
    let s = rewritten(s, GREEK@);
    lemma_rewritten_prefix(plain, s, OPERATORS@);
    let s = rewritten(s, OPERATORS@);
    lemma_rewritten_prefix(plain, s, SUPERSCRIPTS@);
    let s = rewritten(s, SUPERSCRIPTS@);
    lemma_rewritten_prefix(plain, s, SUBSCRIPTS@);
    let s = rewritten(s, SUBSCRIPTS@);
    lemma_fractions_prefix(plain, s);
    let s = fractions_unfolded(s);
    lemma_rewritten_prefix(plain, s, LAYOUT@);
    let s = rewritten(s, LAYOUT@);
    Seq::filter_distributes_over_add(plain, s, |c: char| no_brace(c));
    lemma_filter_plain(plain);
}

/// A text without backslashes, carets, underscores and braces is shown as it stands.
pub proof fn law_plain_text_unchanged(source: Seq<char>)
    requires
        all_plain(source),
    ensures
        math_text(source) == source,
{
    let none = Seq::<char>::empty();
    law_plain_prefix_unchanged(source, none);
    lemma_rewritten_empty(VULGAR_FRACTIONS@);
    lemma_rewritten_empty(GREEK@);
    lemma_rewritten_empty(OPERATORS@);
    lemma_rewritten_empty(SUPERSCRIPTS@);
    lemma_rewritten_empty(SUBSCRIPTS@);
    reveal_strlit("\\frac{");
    assert(find_from(none, "\\frac{"@, 0) is None);
    lemma_rewritten_empty(LAYOUT@);
    lemma_filter_plain(none);
    assert(source + none =~= source);
}

/// Replacing goes on behind a text that lacks the first character of the pattern.
proof fn lemma_replaced_prefix(
    plain: Seq<char>,
    s: Seq<char>,
    pattern: Seq<char>,
    replacement: Seq<char>,
)
    requires
        all_plain(plain),
        is_marked(pattern),
    ensures
        replaced(plain + s, pattern, replacement) == plain + replaced(s, pattern, replacement),
    decreases plain.len(),
{
    let all = plain + s;
    if plain.len() == 0 {
        assert(all =~= s);
        assert(plain + replaced(s, pattern, replacement) =~= replaced(s, pattern, replacement));
    } else {
        let tail = plain.skip(1);
        lemma_replaced_prefix(tail, s, pattern, replacement);
        assert(all.skip(1) =~= tail + s);
        assert(plain + replaced(s, pattern, replacement) =~= all.take(1) + (tail + replaced(
            s,
            pattern,
            replacement,
        )));
        if all.len() >= pattern.len() {
            assert(all.subrange(0, pattern.len() as int)[0] == plain[0]);
        }
    }
}

/// Rewriting by a table of marked commands goes on behind plain text.
pub proof fn lemma_rewritten_prefix(
    plain: Seq<char>,
    s: Seq<char>,
    rules: Seq<(&'static str, &'static str)>,
)
    requires
        all_plain(plain),
        all_marked(rules),
    ensures
        rewritten(plain + s, rules) == plain + rewritten(s, rules),
    decreases rules.len(),
{
    if rules.len() > 0 {
        assert forall|k: int| 0 <= k < rules.drop_last().len() implies is_marked(
            #[trigger] rules.drop_last()[k].0@,
        ) by {
            assert(rules.drop_last()[k] == rules[k]);
        }
        lemma_rewritten_prefix(plain, s, rules.drop_last());
        lemma_replaced_prefix(
            plain,
            rewritten(s, rules.drop_last()),
            rules.last().0@,
            rules.last().1@,
        );
    }
}

/// Nothing is rewritten in an empty text.
pub proof fn lemma_rewritten_empty(rules: Seq<(&'static str, &'static str)>)
    ensures
        rewritten(Seq::empty(), rules) == Seq::<char>::empty(),
    decreases rules.len(),
{
    if rules.len() > 0 {
        lemma_rewritten_empty(rules.drop_last());
    }
}

/// A search behind plain text finds what a search of the rest finds.
pub proof fn lemma_find_behind(plain: Seq<char>, s: Seq<char>, pattern: Seq<char>, from: int)
    requires
        0 <= from,
    ensures
        find_from(plain + s, pattern, plain.len() + from) == match find_from(s, pattern, from) {
            Some(i) => Some(plain.len() + i),
            None => None,
        },
{
    assert((plain + s).skip(plain.len() as int) =~= s);
    lemma_find_from_shift(plain + s, pattern, plain.len() as int, from);
}

/// A marked pattern is found behind plain text only.
proof fn lemma_find_skips_plain(plain: Seq<char>, s: Seq<char>, pattern: Seq<char>, from: int)
    requires
        all_plain(plain),
        is_marked(pattern),
        0 <= from <= plain.len(),
    ensures
        find_from(plain + s, pattern, from) == find_from(plain + s, pattern, plain.len() as int),
    decreases plain.len() - from,
{
    let all = plain + s;
    if from < plain.len() {
        lemma_find_skips_plain(plain, s, pattern, from + 1);
        if from + pattern.len() <= all.len() {
            assert(all.subrange(from, from + pattern.len())[0] == plain[from]);
            assert(is_plain(plain[from]));
        }
    }
}

/// Fractions are unfolded behind plain text.
pub proof fn lemma_fractions_prefix(plain: Seq<char>, s: Seq<char>)
    requires
        all_plain(plain),
    ensures
        fractions_unfolded(plain + s) == plain + fractions_unfolded(s),
    decreases s.len(),
{
    reveal_strlit("\\frac{");
    let open = "\\frac{"@;
    let all = plain + s;
    let n = plain.len();
    lemma_find_skips_plain(plain, s, open, 0);
    lemma_find_behind(plain, s, open, 0);
    lemma_find_from(s, open, 0);
    if let Some(start) = find_from(s, open, 0) {
        lemma_find_behind(plain, s, seq!['}'], start + open.len());
        lemma_find_from(s, seq!['}'], start + open.len());
        if let Some(a) = find_from(s, seq!['}'], start + open.len()) {
            lemma_find_behind(plain, s, seq!['}'], a + 2);
        }
    }
    if let Some((start, a, b)) = first_fraction(s) {
        lemma_fraction_shrinks(s);
        lemma_fraction_shrinks(all);
        assert(first_fraction(all) == Some((n + start, n + a, n + b)));
        let next = fraction_unfolded(s, start, a, b);
        assert(fraction_unfolded(all, n + start, n + a, n + b) =~= plain + next);
        lemma_fractions_prefix(plain, next);
    }
}

/// Plain text holds no brace to drop.
pub proof fn lemma_filter_plain(s: Seq<char>)
    requires
        all_plain(s),
    ensures
        s.filter(|c: char| no_brace(c)) == s,
    decreases s.len(),
{
    reveal(Seq::filter);
    if s.len() > 0 {
        assert forall|i: int| 0 <= i < s.drop_last().len() implies is_plain(
            #[trigger] s.drop_last()[i],
        ) by {
            assert(s.drop_last()[i] == s[i]);
        }
        lemma_filter_plain(s.drop_last());
        assert(is_plain(s[s.len() - 1]));
        assert(s.drop_last().push(s.last()) =~= s);
    }
}

/// Every command of every table starts with a character that plain text lacks.
pub proof fn lemma_tables_marked()
    ensures
        all_marked(VULGAR_FRACTIONS@),
        all_marked(GREEK@),
        all_marked(OPERATORS@),
        all_marked(SUPERSCRIPTS@),
        all_marked(SUBSCRIPTS@),
        all_marked(LAYOUT@),
{
    assert(all_marked(VULGAR_FRACTIONS@)) by {
        reveal_strlit("\\frac{1}{2}");
        reveal_strlit("\\frac{1}{3}");
        reveal_strlit("\\frac{1}{4}");
        reveal_strlit("\\frac{3}{4}");
    }
    assert(all_marked(GREEK@)) by {
        reveal_strlit("\\alpha");
        reveal_strlit("\\beta");
        reveal_strlit("\\gamma");
        reveal_strlit("\\delta");
        reveal_strlit("\\epsilon");
        reveal_strlit("\\zeta");
        reveal_strlit("\\eta");
        reveal_strlit("\\theta");
        reveal_strlit("\\iota");
        reveal_strlit("\\kappa");
        reveal_strlit("\\lambda");
        reveal_strlit("\\mu");
        reveal_strlit("\\nu");
        reveal_strlit("\\xi");
        reveal_strlit("\\pi");
        reveal_strlit("\\rho");
        reveal_strlit("\\sigma");
        reveal_strlit("\\tau");
        reveal_strlit("\\phi");
        reveal_strlit("\\chi");
        reveal_strlit("\\psi");
        reveal_strlit("\\omega");
        reveal_strlit("\\Sigma");
        reveal_strlit("\\Pi");
        reveal_strlit("\\Omega");
        reveal_strlit("\\Delta");
        reveal_strlit("\\Gamma");
        reveal_strlit("\\Lambda");
        reveal_strlit("\\Phi");
        reveal_strlit("\\Psi");
        reveal_strlit("\\Theta");
    }
    assert(all_marked(OPERATORS@)) by {
        reveal_strlit("\\times");
        reveal_strlit("\\div");
        reveal_strlit("\\pm");
        reveal_strlit("\\mp");
        reveal_strlit("\\cdot");
        reveal_strlit("\\cdots");
        reveal_strlit("\\ldots");
        reveal_strlit("\\leq");
        reveal_strlit("\\geq");
        reveal_strlit("\\neq");
        reveal_strlit("\\approx");
        reveal_strlit("\\equiv");
        reveal_strlit("\\infty");
        reveal_strlit("\\sum");
        reveal_strlit("\\prod");
        reveal_strlit("\\int");
        reveal_strlit("\\partial");
        reveal_strlit("\\nabla");
        reveal_strlit("\\forall");
        reveal_strlit("\\exists");
        reveal_strlit("\\in");
        reveal_strlit("\\notin");
        reveal_strlit("\\subset");
        reveal_strlit("\\supset");
        reveal_strlit("\\subseteq");
        reveal_strlit("\\supseteq");
        reveal_strlit("\\cup");
        reveal_strlit("\\cap");
        reveal_strlit("\\emptyset");
        reveal_strlit("\\to");
        reveal_strlit("\\rightarrow");
        reveal_strlit("\\leftarrow");
        reveal_strlit("\\Rightarrow");
        reveal_strlit("\\Leftarrow");
        reveal_strlit("\\leftrightarrow");
        reveal_strlit("\\Leftrightarrow");
        reveal_strlit("\\sqrt");
        reveal_strlit("\\langle");
        reveal_strlit("\\rangle");
        reveal_strlit("\\lceil");
        reveal_strlit("\\rceil");
        reveal_strlit("\\lfloor");
        reveal_strlit("\\rfloor");
        reveal_strlit("\\cos");
        reveal_strlit("\\sin");
        reveal_strlit("\\tan");
        reveal_strlit("\\log");
        reveal_strlit("\\ln");
        reveal_strlit("\\lim");
        reveal_strlit("\\max");
        reveal_strlit("\\min");
    }
    assert(all_marked(SUPERSCRIPTS@)) by {
        reveal_strlit("^{0}");
        reveal_strlit("^{1}");
        reveal_strlit("^{2}");
        reveal_strlit("^{3}");
        reveal_strlit("^{4}");
        reveal_strlit("^{5}");
        reveal_strlit("^{6}");
        reveal_strlit("^{7}");
        reveal_strlit("^{8}");
        reveal_strlit("^{9}");
        reveal_strlit("^{n}");
        reveal_strlit("^{i}");
        reveal_strlit("^0");
        reveal_strlit("^1");
        reveal_strlit("^2");
        reveal_strlit("^3");
        reveal_strlit("^n");
    }
    assert(all_marked(SUBSCRIPTS@)) by {
        reveal_strlit("_{0}");
        reveal_strlit("_{1}");
        reveal_strlit("_{2}");
        reveal_strlit("_{3}");
        reveal_strlit("_{4}");
        reveal_strlit("_{5}");
        reveal_strlit("_{6}");
        reveal_strlit("_{7}");
        reveal_strlit("_{8}");
        reveal_strlit("_{9}");
        reveal_strlit("_{i}");
        reveal_strlit("_{n}");
    }
    assert(all_marked(LAYOUT@)) by {
        reveal_strlit("\\left");
        reveal_strlit("\\right");
        reveal_strlit("\\,");
        reveal_strlit("\\;");
        reveal_strlit("\\quad");
        reveal_strlit("\\text{");
        reveal_strlit("\\mathbf{");
    }
}

} // verus!
