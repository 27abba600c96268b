//! What formulas look like: how commands, superscripts, subscripts, fractions and plain text are
//! shown, alone and next to each other.
use crate::math::{
    all_marked, all_plain, first_fraction, fraction_unfolded, fractions_unfolded, is_marked,
    is_plain, lemma_filter_plain, lemma_find_behind, lemma_fraction_shrinks, lemma_fractions_prefix,
    lemma_rewritten_empty, lemma_rewritten_prefix, lemma_tables_marked, math_text, no_brace,
    rewritten, GREEK, LAYOUT, OPERATORS, SUBSCRIPTS, SUPERSCRIPTS, VULGAR_FRACTIONS,
};
use crate::text::{find_from, lemma_find_from, occurs_at, replaced};
use vstd::prelude::*;

verus! {

/// Whether a character is a letter of the Latin alphabet.
pub open spec fn is_letter(c: char) -> bool {
    'a' <= c <= 'z' || 'A' <= c <= 'Z'
}

/// Whether a command that stands before this text ends there: it goes on with no letter.
pub open spec fn ends_word(rest: Seq<char>) -> bool {
    rest.len() == 0 || !is_letter(rest[0])
}

/// Whether every command of a table starts with the given character.
spec fn all_start(rules: Seq<(&'static str, &'static str)>, c: char) -> bool {
    forall|j: int|
        0 <= j < rules.len() ==> (#[trigger] rules[j]).0@.len() > 0 && rules[j].0@[0] == c
}

/// Whether every command of a table is a backslash and two or more letters.
spec fn all_words(rules: Seq<(&'static str, &'static str)>) -> bool {
    forall|j: int| 0 <= j < rules.len() ==> is_word((#[trigger] rules[j]).0@)
}

/// Whether a command is a backslash and two or more letters.
pub open spec fn is_word(command: Seq<char>) -> bool {
    &&& command.len() >= 3
    &&& command[0] == '\\'
    &&& forall|i: int| 1 <= i < command.len() ==> is_letter(#[trigger] command[i])
}

/// Whether no command of a table holds the character.
spec fn all_lack(rules: Seq<(&'static str, &'static str)>, c: char) -> bool {
    forall|j: int| 0 <= j < rules.len() ==> lacks((#[trigger] rules[j]).0@, c)
}

/// Whether a text does not hold the character.
pub open spec fn lacks(s: Seq<char>, c: char) -> bool {
    forall|i: int| 0 <= i < s.len() ==> #[trigger] s[i] != c
}

/// Whether every symbol of a table is plain.
spec fn all_shown(rules: Seq<(&'static str, &'static str)>) -> bool {
    forall|j: int| 0 <= j < rules.len() ==> all_plain((#[trigger] rules[j]).1@)
}

/// Whether no symbol of a table is empty or starts with a letter.
spec fn all_signs(rules: Seq<(&'static str, &'static str)>) -> bool {
    forall|j: int|
        0 <= j < rules.len() ==> (#[trigger] rules[j]).1@.len() > 0 && !is_letter(rules[j].1@[0])
}

/// Whether two texts differ where both have a character, among the first six or at the tenth.
spec fn clash(p: Seq<char>, h: Seq<char>) -> bool {
    ||| p.len() > 1 && h.len() > 1 && p[1] != h[1]
    ||| p.len() > 2 && h.len() > 2 && p[2] != h[2]
    ||| p.len() > 3 && h.len() > 3 && p[3] != h[3]
    ||| p.len() > 5 && h.len() > 5 && p[5] != h[5]
    ||| p.len() > 6 && h.len() > 6 && p[6] != h[6]
    ||| p.len() > 9 && h.len() > 9 && p[9] != h[9]
}

/// Texts that clash are not one the start of the other.
proof fn lemma_clash(p: Seq<char>, h: Seq<char>, t: Seq<char>)
    requires
        clash(p, h),
    ensures
        !occurs_at(h + t, p, 0),
{
    if occurs_at(h + t, p, 0) {
        let start = (h + t).subrange(0, p.len() as int);
        assert(forall|i: int| 0 <= i < p.len() && i < h.len() ==> #[trigger] p[i] == h[i]) by {
            assert forall|i: int| 0 <= i < p.len() && i < h.len() implies #[trigger] p[i]
                == h[i] by {
                assert(start[i] == (h + t)[i]);
            }
        }
    }
}

/// The fractions with a character of their own.
proof fn lemma_vulgar_table()
    ensures
        all_start(VULGAR_FRACTIONS@, '\\'),
        all_lack(VULGAR_FRACTIONS@, ' '),
        all_shown(VULGAR_FRACTIONS@),
        all_signs(VULGAR_FRACTIONS@),
        forall|j: int|
            0 <= j < 4 ==> {
                let p = (#[trigger] VULGAR_FRACTIONS@[j]).0@;
                p.len() == 11 && p[1] == 'f' && p[2] == 'r' && p[5] == '{' && p[7] == '}' && p[8]
                    == '{' && p[10] == '}'
            },
        forall|j: int, k: int|
            0 <= j < k < 4 ==> clash(
                (#[trigger] VULGAR_FRACTIONS@[j]).0@,
                (#[trigger] VULGAR_FRACTIONS@[k]).0@,
            ),
{
    reveal_strlit("\\frac{1}{2}");
    reveal_strlit("½");
    reveal_strlit("\\frac{1}{3}");
    reveal_strlit("⅓");
    reveal_strlit("\\frac{1}{4}");
    reveal_strlit("¼");
    reveal_strlit("\\frac{3}{4}");
    reveal_strlit("¾");
}

/// The Greek letters.
proof fn lemma_greek_table()
    ensures
        all_words(GREEK@),
        all_shown(GREEK@),
        all_signs(GREEK@),
{
    reveal_strlit("\\alpha");
    reveal_strlit("α");
    reveal_strlit("\\beta");
    reveal_strlit("β");
    reveal_strlit("\\gamma");
    reveal_strlit("γ");
    reveal_strlit("\\delta");
    reveal_strlit("δ");
    reveal_strlit("\\epsilon");
    reveal_strlit("ε");
    reveal_strlit("\\zeta");
    reveal_strlit("ζ");
    reveal_strlit("\\eta");
    reveal_strlit("η");
    reveal_strlit("\\theta");
    reveal_strlit("θ");
    reveal_strlit("\\iota");
    reveal_strlit("ι");
    reveal_strlit("\\kappa");
    reveal_strlit("κ");
    reveal_strlit("\\lambda");
    reveal_strlit("λ");
    reveal_strlit("\\mu");
    reveal_strlit("μ");
    reveal_strlit("\\nu");
    reveal_strlit("ν");
    reveal_strlit("\\xi");
    reveal_strlit("ξ");
    reveal_strlit("\\pi");
    reveal_strlit("π");
    reveal_strlit("\\rho");
    reveal_strlit("ρ");
    reveal_strlit("\\sigma");
    reveal_strlit("σ");
    reveal_strlit("\\tau");
    reveal_strlit("τ");
    reveal_strlit("\\phi");
    reveal_strlit("φ");
    reveal_strlit("\\chi");
    reveal_strlit("χ");
    reveal_strlit("\\psi");
    reveal_strlit("ψ");
    reveal_strlit("\\omega");
    reveal_strlit("ω");
    reveal_strlit("\\Sigma");
    reveal_strlit("Σ");
    reveal_strlit("\\Pi");
    reveal_strlit("Π");
    reveal_strlit("\\Omega");
    reveal_strlit("Ω");
    reveal_strlit("\\Delta");
    reveal_strlit("Δ");
    reveal_strlit("\\Gamma");
    reveal_strlit("Γ");
    reveal_strlit("\\Lambda");
    reveal_strlit("Λ");
    reveal_strlit("\\Phi");
    reveal_strlit("Φ");
    reveal_strlit("\\Psi");
    reveal_strlit("Ψ");
    reveal_strlit("\\Theta");
    reveal_strlit("Θ");
}

/// The operators.
#[verifier::rlimit(30)]
proof fn lemma_operator_words()
    ensures
        all_words(OPERATORS@),
{
    reveal_strlit("\\times");
    reveal_strlit("\\div");
    reveal_strlit("\\pm");
    reveal_strlit("\\mp");
    reveal_strlit("\\cdot");
    reveal_strlit("\\cdots");
    reveal_strlit("\\ldots");
    reveal_strlit("\\leq");
    reveal_strlit("\\geq");
    reveal_strlit("\\neq");
    reveal_strlit("\\approx");
    reveal_strlit("\\equiv");
    reveal_strlit("\\infty");
    reveal_strlit("\\sum");
    reveal_strlit("\\prod");
    reveal_strlit("\\int");
    reveal_strlit("\\partial");
    reveal_strlit("\\nabla");
    reveal_strlit("\\forall");
    reveal_strlit("\\exists");
    reveal_strlit("\\in");
    reveal_strlit("\\notin");
    reveal_strlit("\\subset");
    reveal_strlit("\\supset");
    reveal_strlit("\\subseteq");
    reveal_strlit("\\supseteq");
    reveal_strlit("\\cup");
    reveal_strlit("\\cap");
    reveal_strlit("\\emptyset");
    reveal_strlit("\\to");
    reveal_strlit("\\rightarrow");
    reveal_strlit("\\leftarrow");
    reveal_strlit("\\Rightarrow");
    reveal_strlit("\\Leftarrow");
    reveal_strlit("\\leftrightarrow");
    reveal_strlit("\\Leftrightarrow");
    reveal_strlit("\\sqrt");
    reveal_strlit("\\langle");
    reveal_strlit("\\rangle");
    reveal_strlit("\\lceil");
    reveal_strlit("\\rceil");
    reveal_strlit("\\lfloor");
    reveal_strlit("\\rfloor");
    reveal_strlit("\\cos");
    reveal_strlit("\\sin");
    reveal_strlit("\\tan");
    reveal_strlit("\\log");
    reveal_strlit("\\ln");
    reveal_strlit("\\lim");
    reveal_strlit("\\max");
    reveal_strlit("\\min");
}

/// The symbols of the operators; those from the first function name on start with a letter.
proof fn lemma_operator_symbols()
    ensures
        all_shown(OPERATORS@),
        forall|j: int|
            0 <= j < 43 ==> (#[trigger] OPERATORS@[j]).1@.len() > 0 && !is_letter(
                OPERATORS@[j].1@[0],
            ),
{
    reveal_strlit("×");
    reveal_strlit("÷");
    reveal_strlit("±");
    reveal_strlit("∓");
    reveal_strlit("·");
    reveal_strlit("⋯");
    reveal_strlit("…");
    reveal_strlit("≤");
    reveal_strlit("≥");
    reveal_strlit("≠");
    reveal_strlit("≈");
    reveal_strlit("≡");
    reveal_strlit("∞");
    reveal_strlit("∑");
    reveal_strlit("∏");
    reveal_strlit("∫");
    reveal_strlit("∂");
    reveal_strlit("∇");
    reveal_strlit("∀");
    reveal_strlit("∃");
    reveal_strlit("∈");
    reveal_strlit("∉");
    reveal_strlit("⊂");
    reveal_strlit("⊃");
    reveal_strlit("⊆");
    reveal_strlit("⊇");
    reveal_strlit("∪");
    reveal_strlit("∩");
    reveal_strlit("∅");
    reveal_strlit("→");
    reveal_strlit("←");
    reveal_strlit("⇒");
    reveal_strlit("⇐");
    reveal_strlit("↔");
    reveal_strlit("⇔");
    reveal_strlit("√");
    reveal_strlit("⟨");
    reveal_strlit("⟩");
    reveal_strlit("⌈");
    reveal_strlit("⌉");
    reveal_strlit("⌊");
    reveal_strlit("⌋");
    reveal_strlit("cos");
    reveal_strlit("sin");
    reveal_strlit("tan");
    reveal_strlit("log");
    reveal_strlit("ln");
    reveal_strlit("lim");
    reveal_strlit("max");
    reveal_strlit("min");
}

/// A command differs from every other that is replaced before it, but for three that another one
/// begins.
#[verifier::rlimit(30)]
proof fn lemma_commands_differ()
    ensures
        forall|j: int, k: int|
            0 <= j < k < 31 ==> clash((#[trigger] GREEK@[j]).0@, (#[trigger] GREEK@[k]).0@),
        forall|j: int, k: int|
            0 <= j < 31 && 0 <= k < 51 ==> clash(
                (#[trigger] GREEK@[j]).0@,
                (#[trigger] OPERATORS@[k]).0@,
            ),
        forall|k: int|
            0 <= k < 31 ==> (#[trigger] GREEK@[k]).0@[1] != 'f' || GREEK@[k].0@[2] != 'r',
        forall|k: int|
            0 <= k < 51 ==> (#[trigger] OPERATORS@[k]).0@[1] != 'f' || OPERATORS@[k].0@[2] != 'r',
{
    reveal_strlit("\\alpha");
    reveal_strlit("\\beta");
    reveal_strlit("\\gamma");
    reveal_strlit("\\delta");
    reveal_strlit("\\epsilon");
    reveal_strlit("\\zeta");
    reveal_strlit("\\eta");
    reveal_strlit("\\theta");
    reveal_strlit("\\iota");
    reveal_strlit("\\kappa");
    reveal_strlit("\\lambda");
    reveal_strlit("\\mu");
    reveal_strlit("\\nu");
    reveal_strlit("\\xi");
    reveal_strlit("\\pi");
    reveal_strlit("\\rho");
    reveal_strlit("\\sigma");
    reveal_strlit("\\tau");
    reveal_strlit("\\phi");
    reveal_strlit("\\chi");
    reveal_strlit("\\psi");
    reveal_strlit("\\omega");
    reveal_strlit("\\Sigma");
    reveal_strlit("\\Pi");
    reveal_strlit("\\Omega");
    reveal_strlit("\\Delta");
    reveal_strlit("\\Gamma");
    reveal_strlit("\\Lambda");
    reveal_strlit("\\Phi");
    reveal_strlit("\\Psi");
    reveal_strlit("\\Theta");
    reveal_strlit("\\times");
    reveal_strlit("\\div");
    reveal_strlit("\\pm");
    reveal_strlit("\\mp");
    reveal_strlit("\\cdot");
    reveal_strlit("\\cdots");
    reveal_strlit("\\ldots");
    reveal_strlit("\\leq");
    reveal_strlit("\\geq");
    reveal_strlit("\\neq");
    reveal_strlit("\\approx");
    reveal_strlit("\\equiv");
    reveal_strlit("\\infty");
    reveal_strlit("\\sum");
    reveal_strlit("\\prod");
    reveal_strlit("\\int");
    reveal_strlit("\\partial");
    reveal_strlit("\\nabla");
    reveal_strlit("\\forall");
    reveal_strlit("\\exists");
    reveal_strlit("\\in");
    reveal_strlit("\\notin");
    reveal_strlit("\\subset");
    reveal_strlit("\\supset");
    reveal_strlit("\\subseteq");
    reveal_strlit("\\supseteq");
    reveal_strlit("\\cup");
    reveal_strlit("\\cap");
    reveal_strlit("\\emptyset");
    reveal_strlit("\\to");
    reveal_strlit("\\rightarrow");
    reveal_strlit("\\leftarrow");
    reveal_strlit("\\Rightarrow");
    reveal_strlit("\\Leftarrow");
    reveal_strlit("\\leftrightarrow");
    reveal_strlit("\\Leftrightarrow");
    reveal_strlit("\\sqrt");
    reveal_strlit("\\langle");
    reveal_strlit("\\rangle");
    reveal_strlit("\\lceil");
    reveal_strlit("\\rceil");
    reveal_strlit("\\lfloor");
    reveal_strlit("\\rfloor");
    reveal_strlit("\\cos");
    reveal_strlit("\\sin");
    reveal_strlit("\\tan");
    reveal_strlit("\\log");
    reveal_strlit("\\ln");
    reveal_strlit("\\lim");
    reveal_strlit("\\max");
    reveal_strlit("\\min");
}

/// An operator differs from every other that is replaced before it, but for three that another one
/// begins and for `\\in`, which begins two others.
#[verifier::rlimit(30)]
proof fn lemma_operators_differ()
    ensures
        forall|j: int, k: int|
            0 <= j < k < 51 && k != 5 && k != 24 && k != 25 ==> {
                ||| clash((#[trigger] OPERATORS@[j]).0@, (#[trigger] OPERATORS@[k]).0@)
                ||| k == 20 && OPERATORS@[j].0@.len() > OPERATORS@[k].0@.len()
            },
{
    reveal_strlit("\\times");
    reveal_strlit("\\div");
    reveal_strlit("\\pm");
    reveal_strlit("\\mp");
    reveal_strlit("\\cdot");
    reveal_strlit("\\cdots");
    reveal_strlit("\\ldots");
    reveal_strlit("\\leq");
    reveal_strlit("\\geq");
    reveal_strlit("\\neq");
    reveal_strlit("\\approx");
    reveal_strlit("\\equiv");
    reveal_strlit("\\infty");
    reveal_strlit("\\sum");
    reveal_strlit("\\prod");
    reveal_strlit("\\int");
    reveal_strlit("\\partial");
    reveal_strlit("\\nabla");
    reveal_strlit("\\forall");
    reveal_strlit("\\exists");
    reveal_strlit("\\in");
    reveal_strlit("\\notin");
    reveal_strlit("\\subset");
    reveal_strlit("\\supset");
    reveal_strlit("\\subseteq");
    reveal_strlit("\\supseteq");
    reveal_strlit("\\cup");
    reveal_strlit("\\cap");
    reveal_strlit("\\emptyset");
    reveal_strlit("\\to");
    reveal_strlit("\\rightarrow");
    reveal_strlit("\\leftarrow");
    reveal_strlit("\\Rightarrow");
    reveal_strlit("\\Leftarrow");
    reveal_strlit("\\leftrightarrow");
    reveal_strlit("\\Leftrightarrow");
    reveal_strlit("\\sqrt");
    reveal_strlit("\\langle");
    reveal_strlit("\\rangle");
    reveal_strlit("\\lceil");
    reveal_strlit("\\rceil");
    reveal_strlit("\\lfloor");
    reveal_strlit("\\rfloor");
    reveal_strlit("\\cos");
    reveal_strlit("\\sin");
    reveal_strlit("\\tan");
    reveal_strlit("\\log");
    reveal_strlit("\\ln");
    reveal_strlit("\\lim");
    reveal_strlit("\\max");
    reveal_strlit("\\min");
}

/// What holds no start of the pattern is left as it is, and what is behind it is replaced as it is
/// on its own.
proof fn lemma_replaced_behind(
    u: Seq<char>,
    s: Seq<char>,
    pattern: Seq<char>,
    replacement: Seq<char>,
)
    requires
        pattern.len() > 0,
        lacks(u, pattern[0]),
    ensures
        replaced(u + s, pattern, replacement) == u + replaced(s, pattern, replacement),
    decreases u.len(),
{
    let all = u + s;
    if u.len() == 0 {
        assert(all =~= s);
        assert(u + replaced(s, pattern, replacement) =~= replaced(s, pattern, replacement));
    } else {
        let tail = u.skip(1);
        assert(lacks(tail, pattern[0])) by {
            assert forall|i: int| 0 <= i < tail.len() implies #[trigger] tail[i] != pattern[0] by {
                assert(tail[i] == u[i + 1]);
            }
        }
        lemma_replaced_behind(tail, s, pattern, replacement);
        assert(all.skip(1) =~= tail + s);
        assert(all.take(1) =~= u.take(1));
        assert(u.take(1) + (tail + replaced(s, pattern, replacement)) =~= u + replaced(
            s,
            pattern,
            replacement,
        ));
        if all.len() >= pattern.len() {
            assert(all.subrange(0, pattern.len() as int)[0] == u[0]);
            assert(u[0] != pattern[0]);
        } else {
            assert(replaced(s, pattern, replacement) == s);
        }
    }
}

/// A start that the pattern neither begins nor starts in is left as it is.
proof fn lemma_replaced_head(
    h: Seq<char>,
    s: Seq<char>,
    pattern: Seq<char>,
    replacement: Seq<char>,
)
    requires
        h.len() > 0,
        pattern.len() > 0,
        lacks(h.skip(1), pattern[0]),
        !occurs_at(h + s, pattern, 0),
    ensures
        replaced(h + s, pattern, replacement) == h + replaced(s, pattern, replacement),
{
    let all = h + s;
    let u = h.skip(1);
    lemma_replaced_behind(u, s, pattern, replacement);
    assert(all.skip(1) =~= u + s);
    assert(all.take(1) =~= h.take(1));
    assert(h.take(1) + (u + replaced(s, pattern, replacement)) =~= h + replaced(
        s,
        pattern,
        replacement,
    ));
    if all.len() < pattern.len() {
        assert(replaced(s, pattern, replacement) == s);
    }
}

/// The pattern at the start is replaced.
proof fn lemma_replaced_here(s: Seq<char>, pattern: Seq<char>, replacement: Seq<char>)
    requires
        pattern.len() > 0,
    ensures
        replaced(pattern + s, pattern, replacement) == replacement + replaced(
            s,
            pattern,
            replacement,
        ),
{
    let all = pattern + s;
    assert(all.subrange(0, pattern.len() as int) =~= pattern);
    assert(all.skip(pattern.len() as int) =~= s);
}

/// A table is applied by applying its first rules and then the others.
proof fn lemma_rewritten_in_two_parts(
    s: Seq<char>,
    rules: Seq<(&'static str, &'static str)>,
    k: int,
)
    requires
        0 <= k <= rules.len(),
    ensures
        rewritten(s, rules) == rewritten(rewritten(s, rules.take(k)), rules.skip(k)),
    decreases rules.len() - k,
{
    if k == rules.len() {
        assert(rules.take(k) =~= rules);
        assert(rules.skip(k) =~= Seq::empty());
    } else {
        lemma_rewritten_in_two_parts_step(s, rules, k);
        lemma_rewritten_in_two_parts(s, rules, k + 1);
    }
}

/// A table is applied by applying its first rule and then the others.
proof fn lemma_rewritten_first(s: Seq<char>, rules: Seq<(&'static str, &'static str)>)
    requires
        rules.len() > 0,
    ensures
        rewritten(s, rules) == rewritten(replaced(s, rules[0].0@, rules[0].1@), rules.skip(1)),
    decreases rules.len(),
{
    let less = rules.drop_last();
    if rules.len() == 1 {
        assert(less =~= Seq::empty());
        assert(rules.skip(1) =~= Seq::empty());
        assert(rewritten(s, less) == s);
    } else {
        lemma_rewritten_first(s, less);
        assert(rules.skip(1).drop_last() =~= less.skip(1));
        assert(rules.skip(1).last() == rules.last());
    }
}

proof fn lemma_rewritten_in_two_parts_step(
    s: Seq<char>,
    rules: Seq<(&'static str, &'static str)>,
    k: int,
)
    requires
        0 <= k < rules.len(),
    ensures
        rewritten(rewritten(s, rules.take(k)), rules.skip(k)) == rewritten(
            rewritten(s, rules.take(k + 1)),
            rules.skip(k + 1),
        ),
{
    let t = rewritten(s, rules.take(k));
    lemma_rewritten_first(t, rules.skip(k));
    assert(rules.skip(k).skip(1) =~= rules.skip(k + 1));
    assert(rules.take(k + 1).drop_last() =~= rules.take(k));
}

/// Whether no rule of a table replaces the start of a text, whatever is behind it.
spec fn passes(h: Seq<char>, rules: Seq<(&'static str, &'static str)>) -> bool {
    forall|j: int|
        0 <= j < rules.len() ==> {
            let p = (#[trigger] rules[j]).0@;
            p.len() > 0 && clash(p, h) && lacks(h.skip(1), p[0])
        }
}

/// A start that no rule replaces stays.
proof fn lemma_head_passes(
    h: Seq<char>,
    s: Seq<char>,
    rules: Seq<(&'static str, &'static str)>,
)
    requires
        h.len() > 0,
        passes(h, rules),
    ensures
        rewritten(h + s, rules) == h + rewritten(s, rules),
    decreases rules.len(),
{
    if rules.len() > 0 {
        let less = rules.drop_last();
        assert forall|j: int| 0 <= j < less.len() implies {
            let p = (#[trigger] less[j]).0@;
            p.len() > 0 && clash(p, h) && lacks(h.skip(1), p[0])
        } by {
            assert(less[j] == rules[j]);
        }
        lemma_head_passes(h, s, less);
        let p = rules[rules.len() - 1].0@;
        lemma_clash(p, h, rewritten(s, less));
        lemma_replaced_head(h, rewritten(s, less), p, rules.last().1@);
    }
}

/// A text without the characters that start the commands of a table stays.
proof fn lemma_text_passes(
    u: Seq<char>,
    s: Seq<char>,
    rules: Seq<(&'static str, &'static str)>,
    c: char,
)
    requires
        all_start(rules, c),
        lacks(u, c),
    ensures
        rewritten(u + s, rules) == u + rewritten(s, rules),
    decreases rules.len(),
{
    if rules.len() > 0 {
        let less = rules.drop_last();
        assert forall|j: int| 0 <= j < less.len() implies (#[trigger] less[j]).0@.len() > 0
            && less[j].0@[0] == c by {
            assert(less[j] == rules[j]);
        }
        lemma_text_passes(u, s, less, c);
        assert(rules[rules.len() - 1].0@[0] == c);
        lemma_replaced_behind(u, rewritten(s, less), rules.last().0@, rules.last().1@);
    }
}

/// A word before the end of another text stays if no command of the table begins it.
proof fn lemma_word_passes(
    word: Seq<char>,
    s: Seq<char>,
    rules: Seq<(&'static str, &'static str)>,
)
    requires
        is_word(word),
        ends_word(s),
        all_words(rules),
        all_signs(rules),
        forall|j: int|
            0 <= j < rules.len() ==> clash((#[trigger] rules[j]).0@, word) || rules[j].0@.len()
                > word.len(),
    ensures
        rewritten(word + s, rules) == word + rewritten(s, rules),
        ends_word(rewritten(s, rules)),
    decreases rules.len(),
{
    if rules.len() > 0 {
        let less = rules.drop_last();
        assert forall|j: int| 0 <= j < less.len() implies is_word((#[trigger] less[j]).0@)
            && less[j].1@.len() > 0 && !is_letter(less[j].1@[0]) && (clash(less[j].0@, word)
            || less[j].0@.len() > word.len()) by {
            assert(less[j] == rules[j]);
        }
        lemma_word_passes(word, s, less);
        let t = rewritten(s, less);
        let rule = rules[rules.len() - 1];
        let p = rule.0@;
        assert(is_word(p));
        if clash(p, word) {
            lemma_clash(p, word, t);
        } else {
            if occurs_at(word + t, p, 0) {
                let start = (word + t).subrange(0, p.len() as int);
                assert(start[word.len() as int] == t[0]);
                assert(is_letter(p[word.len() as int]));
            }
        }
        assert(lacks(word.skip(1), '\\')) by {
            assert forall|i: int| 0 <= i < word.skip(1).len() implies #[trigger] word.skip(1)[i]
                != '\\' by {
                assert(word.skip(1)[i] == word[i + 1]);
                assert(is_letter(word[i + 1]));
            }
        }
        lemma_replaced_head(word, t, p, rule.1@);
        lemma_end_stays(t, p, rule.1@);
    }
}

/// What ends a word still does when a command is replaced by a sign.
proof fn lemma_end_stays(t: Seq<char>, p: Seq<char>, r: Seq<char>)
    requires
        ends_word(t),
        p.len() > 0,
        r.len() > 0,
        !is_letter(r[0]),
    ensures
        ends_word(replaced(t, p, r)),
{
    if t.len() >= p.len() && !occurs_at(t, p, 0) {
        assert(replaced(t, p, r)[0] == t[0]);
    }
}

/// The signs of a table keep the end of a word.
proof fn lemma_end_stays_in_table(s: Seq<char>, rules: Seq<(&'static str, &'static str)>, c: char)
    requires
        ends_word(s),
        all_start(rules, c),
        all_signs(rules),
    ensures
        ends_word(rewritten(s, rules)),
    decreases rules.len(),
{
    if rules.len() > 0 {
        let less = rules.drop_last();
        assert forall|j: int| 0 <= j < less.len() implies (#[trigger] less[j]).0@.len() > 0
            && less[j].0@[0] == c && less[j].1@.len() > 0 && !is_letter(less[j].1@[0]) by {
            assert(less[j] == rules[j]);
        }
        lemma_end_stays_in_table(s, less, c);
        let rule = rules[rules.len() - 1];
        assert(rule.0@.len() > 0 && rule.1@.len() > 0);
        lemma_end_stays(rewritten(s, less), rule.0@, rule.1@);
    }
}

/// A text behind one that is replaced: the rule of the table for the start makes its symbol of it,
/// and what is behind it is rewritten as it is on its own.
proof fn lemma_own_rule(
    s: Seq<char>,
    rules: Seq<(&'static str, &'static str)>,
    k: int,
)
    requires
        0 <= k < rules.len(),
        rules[k].0@.len() > 0,
        all_plain(rules[k].1@),
        all_marked(rules),
        rewritten(rules[k].0@ + s, rules.take(k)) == rules[k].0@ + rewritten(s, rules.take(k)),
    ensures
        rewritten(rules[k].0@ + s, rules) == rules[k].1@ + rewritten(s, rules),
{
    let p = rules[k].0@;
    let r = rules[k].1@;
    let t = rewritten(s, rules.take(k));
    lemma_rewritten_in_two_parts(p + s, rules, k + 1);
    lemma_rewritten_in_two_parts(s, rules, k + 1);
    assert(rules.take(k + 1).drop_last() =~= rules.take(k));
    assert(rules.take(k + 1).last() == rules[k]);
    lemma_replaced_here(t, p, r);
    let more = rules.skip(k + 1);
    assert forall|j: int| 0 <= j < more.len() implies is_marked(#[trigger] more[j].0@) by {
        assert(more[j] == rules[j + k + 1]);
    }
    lemma_rewritten_prefix(r, replaced(t, p, r), more);
}

/// A formula with its fractions unfolded, when the rest is done.
spec fn laid_out(s: Seq<char>) -> Seq<char> {
    rewritten(s, LAYOUT@).filter(|c: char| no_brace(c))
}

/// A formula without commands, superscripts and subscripts, when the rest is done.
spec fn unfolded(s: Seq<char>) -> Seq<char> {
    laid_out(fractions_unfolded(s))
}

/// A formula without commands, when the rest is done.
spec fn finished(s: Seq<char>) -> Seq<char> {
    unfolded(rewritten(rewritten(s, SUPERSCRIPTS@), SUBSCRIPTS@))
}

/// A formula with its commands replaced by their symbols.
spec fn without_commands(s: Seq<char>) -> Seq<char> {
    rewritten(rewritten(rewritten(s, VULGAR_FRACTIONS@), GREEK@), OPERATORS@)
}

/// First the commands are replaced by their symbols, and then the rest is done.
proof fn lemma_commands_first(s: Seq<char>)
    ensures
        math_text(s) == finished(without_commands(s)),
{
}

/// Plain text at the start stays when the rest is done.
proof fn lemma_laid_out_prefix(plain: Seq<char>, s: Seq<char>)
    requires
        all_plain(plain),
    ensures
        laid_out(plain + s) == plain + laid_out(s),
{
    lemma_tables_marked();
    lemma_rewritten_prefix(plain, s, LAYOUT@);
    Seq::filter_distributes_over_add(plain, rewritten(s, LAYOUT@), |c: char| no_brace(c));
    lemma_filter_plain(plain);
}

/// Plain text at the start stays when the rest is done.
proof fn lemma_unfolded_prefix(plain: Seq<char>, s: Seq<char>)
    requires
        all_plain(plain),
    ensures
        unfolded(plain + s) == plain + unfolded(s),
{
    lemma_fractions_prefix(plain, s);
    lemma_laid_out_prefix(plain, fractions_unfolded(s));
}

/// Plain text at the start stays when the rest is done.
proof fn lemma_finished_prefix(plain: Seq<char>, s: Seq<char>)
    requires
        all_plain(plain),
    ensures
        finished(plain + s) == plain + finished(s),
{
    lemma_tables_marked();
    lemma_rewritten_prefix(plain, s, SUPERSCRIPTS@);
    let s = rewritten(s, SUPERSCRIPTS@);
    lemma_rewritten_prefix(plain, s, SUBSCRIPTS@);
    lemma_unfolded_prefix(plain, rewritten(s, SUBSCRIPTS@));
}

/// A word that is no fraction stays while the fractions with a character of their own are replaced.
proof fn lemma_word_is_no_fraction(word: Seq<char>, rest: Seq<char>)
    requires
        is_word(word),
        word[1] != 'f' || word[2] != 'r',
    ensures
        rewritten(word + rest, VULGAR_FRACTIONS@) == word + rewritten(rest, VULGAR_FRACTIONS@),
        ends_word(rest) ==> ends_word(rewritten(rest, VULGAR_FRACTIONS@)),
{
    lemma_vulgar_table();
    if ends_word(rest) {
        lemma_end_stays_in_table(rest, VULGAR_FRACTIONS@, '\\');
    }
    lemma_word_has_one_backslash(word);
    assert forall|j: int| 0 <= j < VULGAR_FRACTIONS@.len() implies {
        let p = (#[trigger] VULGAR_FRACTIONS@[j]).0@;
        p.len() > 0 && clash(p, word) && lacks(word.skip(1), p[0])
    } by {}
    lemma_head_passes(word, rest, VULGAR_FRACTIONS@);
}

proof fn lemma_word_has_one_backslash(word: Seq<char>)
    requires
        is_word(word),
    ensures
        lacks(word.skip(1), '\\'),
{
    assert forall|i: int| 0 <= i < word.skip(1).len() implies #[trigger] word.skip(1)[i] != '\\' by {
        assert(word.skip(1)[i] == word[i + 1]);
        assert(is_letter(word[i + 1]));
    }
}

/// A Greek letter becomes its symbol.
proof fn lemma_greek_letter(k: int, rest: Seq<char>)
    requires
        0 <= k < 31,
    ensures
        math_text(GREEK@[k].0@ + rest) == GREEK@[k].1@ + math_text(rest),
{
    let word = GREEK@[k].0@;
    lemma_greek_table();
    lemma_commands_differ();
    lemma_tables_marked();
    assert(is_word(word));
    lemma_word_is_no_fraction(word, rest);
    let s = rewritten(rest, VULGAR_FRACTIONS@);
    let some = GREEK@.take(k);
    lemma_word_has_one_backslash(word);
    assert forall|j: int| 0 <= j < some.len() implies {
        let p = (#[trigger] some[j]).0@;
        p.len() > 0 && clash(p, word) && lacks(word.skip(1), p[0])
    } by {
        assert(some[j] == GREEK@[j]);
        assert(is_word(GREEK@[j].0@));
    }
    lemma_head_passes(word, s, some);
    assert(all_plain(GREEK@[k].1@));
    lemma_own_rule(s, GREEK@, k);
    lemma_rewritten_prefix(GREEK@[k].1@, rewritten(s, GREEK@), OPERATORS@);
    lemma_finished_prefix(GREEK@[k].1@, without_commands(rest));
    lemma_commands_first(word + rest);
    lemma_commands_first(rest);
}

/// A word that no Greek letter begins stays while the Greek letters are replaced.
proof fn lemma_word_is_no_greek_letter(word: Seq<char>, rest: Seq<char>)
    requires
        is_word(word),
        forall|j: int| 0 <= j < 31 ==> clash((#[trigger] GREEK@[j]).0@, word),
    ensures
        rewritten(word + rest, GREEK@) == word + rewritten(rest, GREEK@),
        ends_word(rest) ==> ends_word(rewritten(rest, GREEK@)),
{
    lemma_greek_table();
    if ends_word(rest) {
        lemma_word_passes(word, rest, GREEK@);
    }
    lemma_word_has_one_backslash(word);
    assert forall|j: int| 0 <= j < GREEK@.len() implies {
        let p = (#[trigger] GREEK@[j]).0@;
        p.len() > 0 && clash(p, word) && lacks(word.skip(1), p[0])
    } by {
        assert(is_word(GREEK@[j].0@));
    }
    lemma_head_passes(word, rest, GREEK@);
}

/// A word stays while the first operators are replaced, if none of them begins it, nor goes on with
/// a letter where it ends.
proof fn lemma_word_is_no_operator(word: Seq<char>, rest: Seq<char>, k: int)
    requires
        is_word(word),
        0 <= k <= 51,
        (forall|j: int| 0 <= j < k ==> clash((#[trigger] OPERATORS@[j]).0@, word)) || (k <= 43
            && ends_word(rest) && forall|j: int|
            0 <= j < k ==> clash((#[trigger] OPERATORS@[j]).0@, word) || OPERATORS@[j].0@.len()
                > word.len()),
    ensures
        rewritten(word + rest, OPERATORS@.take(k)) == word + rewritten(rest, OPERATORS@.take(k)),
{
    lemma_operator_words();
    lemma_operator_symbols();
    lemma_word_has_one_backslash(word);
    let some = OPERATORS@.take(k);
    if forall|j: int| 0 <= j < k ==> clash((#[trigger] OPERATORS@[j]).0@, word) {
        assert forall|j: int| 0 <= j < some.len() implies {
            let p = (#[trigger] some[j]).0@;
            p.len() > 0 && clash(p, word) && lacks(word.skip(1), p[0])
        } by {
            assert(some[j] == OPERATORS@[j]);
            assert(is_word(OPERATORS@[j].0@));
        }
        lemma_head_passes(word, rest, some);
    } else {
        assert forall|j: int| 0 <= j < some.len() implies is_word((#[trigger] some[j]).0@)
            && some[j].1@.len() > 0 && !is_letter(some[j].1@[0]) && (clash(some[j].0@, word)
            || some[j].0@.len() > word.len()) by {
            assert(some[j] == OPERATORS@[j]);
        }
        lemma_word_passes(word, rest, some);
    }
}

/// An operator becomes its symbol, but for three that another one begins.
proof fn lemma_operator(k: int, rest: Seq<char>)
    requires
        0 <= k < 51,
        k != 5 && k != 24 && k != 25,
        k == 20 ==> ends_word(rest),
    ensures
        math_text(OPERATORS@[k].0@ + rest) == OPERATORS@[k].1@ + math_text(rest),
{
    let word = OPERATORS@[k].0@;
    lemma_operator_words();
    lemma_operator_symbols();
    lemma_commands_differ();
    lemma_operators_differ();
    lemma_tables_marked();
    assert(is_word(word));
    lemma_word_is_no_fraction(word, rest);
    let s = rewritten(rest, VULGAR_FRACTIONS@);
    lemma_word_is_no_greek_letter(word, s);
    let t = rewritten(s, GREEK@);
    lemma_word_is_no_operator(word, t, k);
    assert(all_plain(OPERATORS@[k].1@));
    lemma_own_rule(t, OPERATORS@, k);
    lemma_finished_prefix(OPERATORS@[k].1@, without_commands(rest));
    lemma_commands_first(word + rest);
    lemma_commands_first(rest);
}

/// A Greek letter is shown as its character, and what is behind it as it is on its own.
pub proof fn law_greek_letters_are_shown(rest: Seq<char>)
    ensures
        math_text("\\alpha"@ + rest) == "α"@ + math_text(rest),
        math_text("\\beta"@ + rest) == "β"@ + math_text(rest),
        math_text("\\gamma"@ + rest) == "γ"@ + math_text(rest),
        math_text("\\delta"@ + rest) == "δ"@ + math_text(rest),
        math_text("\\epsilon"@ + rest) == "ε"@ + math_text(rest),
        math_text("\\zeta"@ + rest) == "ζ"@ + math_text(rest),
        math_text("\\eta"@ + rest) == "η"@ + math_text(rest),
        math_text("\\theta"@ + rest) == "θ"@ + math_text(rest),
        math_text("\\iota"@ + rest) == "ι"@ + math_text(rest),
        math_text("\\kappa"@ + rest) == "κ"@ + math_text(rest),
        math_text("\\lambda"@ + rest) == "λ"@ + math_text(rest),
        math_text("\\mu"@ + rest) == "μ"@ + math_text(rest),
        math_text("\\nu"@ + rest) == "ν"@ + math_text(rest),
        math_text("\\xi"@ + rest) == "ξ"@ + math_text(rest),
        math_text("\\pi"@ + rest) == "π"@ + math_text(rest),
        math_text("\\rho"@ + rest) == "ρ"@ + math_text(rest),
        math_text("\\sigma"@ + rest) == "σ"@ + math_text(rest),
        math_text("\\tau"@ + rest) == "τ"@ + math_text(rest),
        math_text("\\phi"@ + rest) == "φ"@ + math_text(rest),
        math_text("\\chi"@ + rest) == "χ"@ + math_text(rest),
        math_text("\\psi"@ + rest) == "ψ"@ + math_text(rest),
        math_text("\\omega"@ + rest) == "ω"@ + math_text(rest),
        math_text("\\Sigma"@ + rest) == "Σ"@ + math_text(rest),
        math_text("\\Pi"@ + rest) == "Π"@ + math_text(rest),
        math_text("\\Omega"@ + rest) == "Ω"@ + math_text(rest),
        math_text("\\Delta"@ + rest) == "Δ"@ + math_text(rest),
        math_text("\\Gamma"@ + rest) == "Γ"@ + math_text(rest),
        math_text("\\Lambda"@ + rest) == "Λ"@ + math_text(rest),
        math_text("\\Phi"@ + rest) == "Φ"@ + math_text(rest),
        math_text("\\Psi"@ + rest) == "Ψ"@ + math_text(rest),
        math_text("\\Theta"@ + rest) == "Θ"@ + math_text(rest),
{
    lemma_greek_letter(0, rest);
    lemma_greek_letter(1, rest);
    lemma_greek_letter(2, rest);
    lemma_greek_letter(3, rest);
    lemma_greek_letter(4, rest);
    lemma_greek_letter(5, rest);
    lemma_greek_letter(6, rest);
    lemma_greek_letter(7, rest);
    lemma_greek_letter(8, rest);
    lemma_greek_letter(9, rest);
    lemma_greek_letter(10, rest);
    lemma_greek_letter(11, rest);
    lemma_greek_letter(12, rest);
    lemma_greek_letter(13, rest);
    lemma_greek_letter(14, rest);
    lemma_greek_letter(15, rest);
    lemma_greek_letter(16, rest);
    lemma_greek_letter(17, rest);
    lemma_greek_letter(18, rest);
    lemma_greek_letter(19, rest);
    lemma_greek_letter(20, rest);
    lemma_greek_letter(21, rest);
    lemma_greek_letter(22, rest);
    lemma_greek_letter(23, rest);
    lemma_greek_letter(24, rest);
    lemma_greek_letter(25, rest);
    lemma_greek_letter(26, rest);
    lemma_greek_letter(27, rest);
    lemma_greek_letter(28, rest);
    lemma_greek_letter(29, rest);
    lemma_greek_letter(30, rest);
}

/// An operator, a relation, an arrow, a bracket or the name of a function is shown as its symbol,
/// and what is behind it as it is on its own. The command for membership must end there, as it
/// begins two others.
pub proof fn law_operators_are_shown(rest: Seq<char>)
    ensures
        math_text("\\times"@ + rest) == "×"@ + math_text(rest),
        math_text("\\div"@ + rest) == "÷"@ + math_text(rest),
        math_text("\\pm"@ + rest) == "±"@ + math_text(rest),
        math_text("\\mp"@ + rest) == "∓"@ + math_text(rest),
        math_text("\\cdot"@ + rest) == "·"@ + math_text(rest),
        math_text("\\ldots"@ + rest) == "…"@ + math_text(rest),
        math_text("\\leq"@ + rest) == "≤"@ + math_text(rest),
        math_text("\\geq"@ + rest) == "≥"@ + math_text(rest),
        math_text("\\neq"@ + rest) == "≠"@ + math_text(rest),
        math_text("\\approx"@ + rest) == "≈"@ + math_text(rest),
        math_text("\\equiv"@ + rest) == "≡"@ + math_text(rest),
        math_text("\\infty"@ + rest) == "∞"@ + math_text(rest),
        math_text("\\sum"@ + rest) == "∑"@ + math_text(rest),
        math_text("\\prod"@ + rest) == "∏"@ + math_text(rest),
        math_text("\\int"@ + rest) == "∫"@ + math_text(rest),
        math_text("\\partial"@ + rest) == "∂"@ + math_text(rest),
        math_text("\\nabla"@ + rest) == "∇"@ + math_text(rest),
        math_text("\\forall"@ + rest) == "∀"@ + math_text(rest),
        math_text("\\exists"@ + rest) == "∃"@ + math_text(rest),
        math_text("\\notin"@ + rest) == "∉"@ + math_text(rest),
        math_text("\\subset"@ + rest) == "⊂"@ + math_text(rest),
        math_text("\\supset"@ + rest) == "⊃"@ + math_text(rest),
        math_text("\\cup"@ + rest) == "∪"@ + math_text(rest),
        math_text("\\cap"@ + rest) == "∩"@ + math_text(rest),
        math_text("\\emptyset"@ + rest) == "∅"@ + math_text(rest),
        math_text("\\to"@ + rest) == "→"@ + math_text(rest),
        math_text("\\rightarrow"@ + rest) == "→"@ + math_text(rest),
        math_text("\\leftarrow"@ + rest) == "←"@ + math_text(rest),
        math_text("\\Rightarrow"@ + rest) == "⇒"@ + math_text(rest),
        math_text("\\Leftarrow"@ + rest) == "⇐"@ + math_text(rest),
        math_text("\\leftrightarrow"@ + rest) == "↔"@ + math_text(rest),
        math_text("\\Leftrightarrow"@ + rest) == "⇔"@ + math_text(rest),
        math_text("\\sqrt"@ + rest) == "√"@ + math_text(rest),
        math_text("\\langle"@ + rest) == "⟨"@ + math_text(rest),
        math_text("\\rangle"@ + rest) == "⟩"@ + math_text(rest),
        math_text("\\lceil"@ + rest) == "⌈"@ + math_text(rest),
        math_text("\\rceil"@ + rest) == "⌉"@ + math_text(rest),
        math_text("\\lfloor"@ + rest) == "⌊"@ + math_text(rest),
        math_text("\\rfloor"@ + rest) == "⌋"@ + math_text(rest),
        math_text("\\cos"@ + rest) == "cos"@ + math_text(rest),
        math_text("\\sin"@ + rest) == "sin"@ + math_text(rest),
        math_text("\\tan"@ + rest) == "tan"@ + math_text(rest),
        math_text("\\log"@ + rest) == "log"@ + math_text(rest),
        math_text("\\ln"@ + rest) == "ln"@ + math_text(rest),
        math_text("\\lim"@ + rest) == "lim"@ + math_text(rest),
        math_text("\\max"@ + rest) == "max"@ + math_text(rest),
        math_text("\\min"@ + rest) == "min"@ + math_text(rest),
        ends_word(rest) ==> math_text("\\in"@ + rest) == "∈"@ + math_text(rest),
{
    lemma_operator(0, rest);
    lemma_operator(1, rest);
    lemma_operator(2, rest);
    lemma_operator(3, rest);
    lemma_operator(4, rest);
    lemma_operator(6, rest);
    lemma_operator(7, rest);
    lemma_operator(8, rest);
    lemma_operator(9, rest);
    lemma_operator(10, rest);
    lemma_operator(11, rest);
    lemma_operator(12, rest);
    lemma_operator(13, rest);
    lemma_operator(14, rest);
    lemma_operator(15, rest);
    lemma_operator(16, rest);
    lemma_operator(17, rest);
    lemma_operator(18, rest);
    lemma_operator(19, rest);
    lemma_operator(21, rest);
    lemma_operator(22, rest);
    lemma_operator(23, rest);
    lemma_operator(26, rest);
    lemma_operator(27, rest);
    lemma_operator(28, rest);
    lemma_operator(29, rest);
    lemma_operator(30, rest);
    lemma_operator(31, rest);
    lemma_operator(32, rest);
    lemma_operator(33, rest);
    lemma_operator(34, rest);
    lemma_operator(35, rest);
    lemma_operator(36, rest);
    lemma_operator(37, rest);
    lemma_operator(38, rest);
    lemma_operator(39, rest);
    lemma_operator(40, rest);
    lemma_operator(41, rest);
    lemma_operator(42, rest);
    lemma_operator(43, rest);
    lemma_operator(44, rest);
    lemma_operator(45, rest);
    lemma_operator(46, rest);
    lemma_operator(47, rest);
    lemma_operator(48, rest);
    lemma_operator(49, rest);
    lemma_operator(50, rest);
    if ends_word(rest) {
        lemma_operator(20, rest);
    }
}

/// Every command of the Greek letters and of the operators starts with a backslash.
proof fn lemma_commands_start()
    ensures
        all_start(VULGAR_FRACTIONS@, '\\'),
        all_start(GREEK@, '\\'),
        all_start(OPERATORS@, '\\'),
{
    lemma_vulgar_table();
    lemma_greek_table();
    lemma_operator_words();
    assert forall|j: int| 0 <= j < GREEK@.len() implies (#[trigger] GREEK@[j]).0@.len() > 0
        && GREEK@[j].0@[0] == '\\' by {
        assert(is_word(GREEK@[j].0@));
    }
    assert forall|j: int| 0 <= j < OPERATORS@.len() implies (#[trigger] OPERATORS@[j]).0@.len() > 0
        && OPERATORS@[j].0@[0] == '\\' by {
        assert(is_word(OPERATORS@[j].0@));
    }
}

/// A text without backslashes stays while commands are replaced.
proof fn lemma_no_command(u: Seq<char>, s: Seq<char>)
    requires
        lacks(u, '\\'),
    ensures
        without_commands(u + s) == u + without_commands(s),
{
    lemma_commands_start();
    lemma_text_passes(u, s, VULGAR_FRACTIONS@, '\\');
    let s = rewritten(s, VULGAR_FRACTIONS@);
    lemma_text_passes(u, s, GREEK@, '\\');
    let s = rewritten(s, GREEK@);
    lemma_text_passes(u, s, OPERATORS@, '\\');
}

/// The superscripts.
proof fn lemma_superscript_table()
    ensures
        all_start(SUPERSCRIPTS@, '^'),
        all_shown(SUPERSCRIPTS@),
        forall|k: int|
            0 <= k < 17 ==> lacks((#[trigger] SUPERSCRIPTS@[k]).0@, '\\') && lacks(
                SUPERSCRIPTS@[k].0@.skip(1),
                '^',
            ),
        forall|j: int, k: int|
            0 <= j < k < 17 ==> clash(
                (#[trigger] SUPERSCRIPTS@[j]).0@,
                (#[trigger] SUPERSCRIPTS@[k]).0@,
            ),
{
    reveal_strlit("^{0}");
    reveal_strlit("⁰");
    reveal_strlit("^{1}");
    reveal_strlit("¹");
    reveal_strlit("^{2}");
    reveal_strlit("²");
    reveal_strlit("^{3}");
    reveal_strlit("³");
    reveal_strlit("^{4}");
    reveal_strlit("⁴");
    reveal_strlit("^{5}");
    reveal_strlit("⁵");
    reveal_strlit("^{6}");
    reveal_strlit("⁶");
    reveal_strlit("^{7}");
    reveal_strlit("⁷");
    reveal_strlit("^{8}");
    reveal_strlit("⁸");
    reveal_strlit("^{9}");
    reveal_strlit("⁹");
    reveal_strlit("^{n}");
    reveal_strlit("ⁿ");
    reveal_strlit("^{i}");
    reveal_strlit("ⁱ");
    reveal_strlit("^0");
    reveal_strlit("^1");
    reveal_strlit("^2");
    reveal_strlit("^3");
    reveal_strlit("^n");
}

/// The subscripts.
proof fn lemma_subscript_table()
    ensures
        all_start(SUBSCRIPTS@, '_'),
        all_shown(SUBSCRIPTS@),
        forall|k: int|
            0 <= k < 12 ==> lacks((#[trigger] SUBSCRIPTS@[k]).0@, '\\') && lacks(
                SUBSCRIPTS@[k].0@,
                '^',
            ) && lacks(SUBSCRIPTS@[k].0@.skip(1), '_'),
        forall|j: int, k: int|
            0 <= j < k < 12 ==> clash(
                (#[trigger] SUBSCRIPTS@[j]).0@,
                (#[trigger] SUBSCRIPTS@[k]).0@,
            ),
{
    reveal_strlit("_{0}");
    reveal_strlit("₀");
    reveal_strlit("_{1}");
    reveal_strlit("₁");
    reveal_strlit("_{2}");
    reveal_strlit("₂");
    reveal_strlit("_{3}");
    reveal_strlit("₃");
    reveal_strlit("_{4}");
    reveal_strlit("₄");
    reveal_strlit("_{5}");
    reveal_strlit("₅");
    reveal_strlit("_{6}");
    reveal_strlit("₆");
    reveal_strlit("_{7}");
    reveal_strlit("₇");
    reveal_strlit("_{8}");
    reveal_strlit("₈");
    reveal_strlit("_{9}");
    reveal_strlit("₉");
    reveal_strlit("_{i}");
    reveal_strlit("ᵢ");
    reveal_strlit("_{n}");
    reveal_strlit("ₙ");
}

/// A superscript becomes its symbol.
proof fn lemma_superscript(k: int, rest: Seq<char>)
    requires
        0 <= k < 17,
    ensures
        math_text(SUPERSCRIPTS@[k].0@ + rest) == SUPERSCRIPTS@[k].1@ + math_text(rest),
{
    let h = SUPERSCRIPTS@[k].0@;
    let r = SUPERSCRIPTS@[k].1@;
    lemma_superscript_table();
    lemma_tables_marked();
    lemma_no_command(h, rest);
    let s = without_commands(rest);
    let some = SUPERSCRIPTS@.take(k);
    assert forall|j: int| 0 <= j < some.len() implies {
        let p = (#[trigger] some[j]).0@;
        p.len() > 0 && clash(p, h) && lacks(h.skip(1), p[0])
    } by {
        assert(some[j] == SUPERSCRIPTS@[j]);
    }
    lemma_head_passes(h, s, some);
    assert(all_plain(r));
    lemma_own_rule(s, SUPERSCRIPTS@, k);
    let t = rewritten(s, SUPERSCRIPTS@);
    lemma_rewritten_prefix(r, t, SUBSCRIPTS@);
    lemma_unfolded_prefix(r, rewritten(t, SUBSCRIPTS@));
    lemma_commands_first(h + rest);
    lemma_commands_first(rest);
}

/// A subscript becomes its symbol.
proof fn lemma_subscript(k: int, rest: Seq<char>)
    requires
        0 <= k < 12,
    ensures
        math_text(SUBSCRIPTS@[k].0@ + rest) == SUBSCRIPTS@[k].1@ + math_text(rest),
{
    let h = SUBSCRIPTS@[k].0@;
    let r = SUBSCRIPTS@[k].1@;
    lemma_superscript_table();
    lemma_subscript_table();
    lemma_tables_marked();
    lemma_no_command(h, rest);
    let s = without_commands(rest);
    lemma_text_passes(h, s, SUPERSCRIPTS@, '^');
    let t = rewritten(s, SUPERSCRIPTS@);
    let some = SUBSCRIPTS@.take(k);
    assert forall|j: int| 0 <= j < some.len() implies {
        let p = (#[trigger] some[j]).0@;
        p.len() > 0 && clash(p, h) && lacks(h.skip(1), p[0])
    } by {
        assert(some[j] == SUBSCRIPTS@[j]);
    }
    lemma_head_passes(h, t, some);
    assert(all_plain(r));
    lemma_own_rule(t, SUBSCRIPTS@, k);
    lemma_unfolded_prefix(r, rewritten(t, SUBSCRIPTS@));
    lemma_commands_first(h + rest);
    lemma_commands_first(rest);
}

/// A fraction with a character of its own becomes that character.
proof fn lemma_vulgar_fraction(k: int, rest: Seq<char>)
    requires
        0 <= k < 4,
    ensures
        math_text(VULGAR_FRACTIONS@[k].0@ + rest) == VULGAR_FRACTIONS@[k].1@ + math_text(rest),
{
    let h = VULGAR_FRACTIONS@[k].0@;
    let r = VULGAR_FRACTIONS@[k].1@;
    lemma_vulgar_table();
    lemma_tables_marked();
    assert(lacks(h.skip(1), '\\')) by {
        reveal_strlit("\\frac{1}{2}");
        reveal_strlit("\\frac{1}{3}");
        reveal_strlit("\\frac{1}{4}");
        reveal_strlit("\\frac{3}{4}");
    }
    let some = VULGAR_FRACTIONS@.take(k);
    assert forall|j: int| 0 <= j < some.len() implies {
        let p = (#[trigger] some[j]).0@;
        p.len() > 0 && clash(p, h) && lacks(h.skip(1), p[0])
    } by {
        assert(some[j] == VULGAR_FRACTIONS@[j]);
    }
    lemma_head_passes(h, rest, some);
    assert(all_plain(r));
    lemma_own_rule(rest, VULGAR_FRACTIONS@, k);
    let s = rewritten(rest, VULGAR_FRACTIONS@);
    lemma_rewritten_prefix(r, s, GREEK@);
    let s = rewritten(s, GREEK@);
    lemma_rewritten_prefix(r, s, OPERATORS@);
    lemma_finished_prefix(r, rewritten(s, OPERATORS@));
    lemma_commands_first(h + rest);
    lemma_commands_first(rest);
}

/// A superscript is shown as its character, and what is behind it as it is on its own.
pub proof fn law_superscripts_are_shown(rest: Seq<char>)
    ensures
        math_text("^{0}"@ + rest) == "⁰"@ + math_text(rest),
        math_text("^{1}"@ + rest) == "¹"@ + math_text(rest),
        math_text("^{2}"@ + rest) == "²"@ + math_text(rest),
        math_text("^{3}"@ + rest) == "³"@ + math_text(rest),
        math_text("^{4}"@ + rest) == "⁴"@ + math_text(rest),
        math_text("^{5}"@ + rest) == "⁵"@ + math_text(rest),
        math_text("^{6}"@ + rest) == "⁶"@ + math_text(rest),
        math_text("^{7}"@ + rest) == "⁷"@ + math_text(rest),
        math_text("^{8}"@ + rest) == "⁸"@ + math_text(rest),
        math_text("^{9}"@ + rest) == "⁹"@ + math_text(rest),
        math_text("^{n}"@ + rest) == "ⁿ"@ + math_text(rest),
        math_text("^{i}"@ + rest) == "ⁱ"@ + math_text(rest),
        math_text("^0"@ + rest) == "⁰"@ + math_text(rest),
        math_text("^1"@ + rest) == "¹"@ + math_text(rest),
        math_text("^2"@ + rest) == "²"@ + math_text(rest),
        math_text("^3"@ + rest) == "³"@ + math_text(rest),
        math_text("^n"@ + rest) == "ⁿ"@ + math_text(rest),
{
    lemma_superscript(0, rest);
    lemma_superscript(1, rest);
    lemma_superscript(2, rest);
    lemma_superscript(3, rest);
    lemma_superscript(4, rest);
    lemma_superscript(5, rest);
    lemma_superscript(6, rest);
    lemma_superscript(7, rest);
    lemma_superscript(8, rest);
    lemma_superscript(9, rest);
    lemma_superscript(10, rest);
    lemma_superscript(11, rest);
    lemma_superscript(12, rest);
    lemma_superscript(13, rest);
    lemma_superscript(14, rest);
    lemma_superscript(15, rest);
    lemma_superscript(16, rest);
}

/// A subscript is shown as its character, and what is behind it as it is on its own.
pub proof fn law_subscripts_are_shown(rest: Seq<char>)
    ensures
        math_text("_{0}"@ + rest) == "₀"@ + math_text(rest),
        math_text("_{1}"@ + rest) == "₁"@ + math_text(rest),
        math_text("_{2}"@ + rest) == "₂"@ + math_text(rest),
        math_text("_{3}"@ + rest) == "₃"@ + math_text(rest),
        math_text("_{4}"@ + rest) == "₄"@ + math_text(rest),
        math_text("_{5}"@ + rest) == "₅"@ + math_text(rest),
        math_text("_{6}"@ + rest) == "₆"@ + math_text(rest),
        math_text("_{7}"@ + rest) == "₇"@ + math_text(rest),
        math_text("_{8}"@ + rest) == "₈"@ + math_text(rest),
        math_text("_{9}"@ + rest) == "₉"@ + math_text(rest),
        math_text("_{i}"@ + rest) == "ᵢ"@ + math_text(rest),
        math_text("_{n}"@ + rest) == "ₙ"@ + math_text(rest),
{
    lemma_subscript(0, rest);
    lemma_subscript(1, rest);
    lemma_subscript(2, rest);
    lemma_subscript(3, rest);
    lemma_subscript(4, rest);
    lemma_subscript(5, rest);
    lemma_subscript(6, rest);
    lemma_subscript(7, rest);
    lemma_subscript(8, rest);
    lemma_subscript(9, rest);
    lemma_subscript(10, rest);
    lemma_subscript(11, rest);
}

/// A fraction with a character of its own is shown as that, and what is behind it as it is on its
/// own.
pub proof fn law_vulgar_fractions_are_shown(rest: Seq<char>)
    ensures
        math_text("\\frac{1}{2}"@ + rest) == "½"@ + math_text(rest),
        math_text("\\frac{1}{3}"@ + rest) == "⅓"@ + math_text(rest),
        math_text("\\frac{1}{4}"@ + rest) == "¼"@ + math_text(rest),
        math_text("\\frac{3}{4}"@ + rest) == "¾"@ + math_text(rest),
{
    lemma_vulgar_fraction(0, rest);
    lemma_vulgar_fraction(1, rest);
    lemma_vulgar_fraction(2, rest);
    lemma_vulgar_fraction(3, rest);
}

/// Whether no fraction starts in a text, whatever is behind it.
spec fn starts_no_fraction(u: Seq<char>) -> bool {
    forall|i: int| 0 <= i < u.len() ==> #[trigger] is_no_fraction_at(u, i)
}

/// Whether a text differs from the start of a fraction at a position.
spec fn is_no_fraction_at(u: Seq<char>, i: int) -> bool {
    exists|m: int| 0 <= m < 6 && i + m < u.len() && #[trigger] u[i + m] != "\\frac{"@[m]
}

/// A fraction is found behind a text in which none starts.
proof fn lemma_fraction_is_behind(u: Seq<char>, s: Seq<char>, from: int)
    requires
        starts_no_fraction(u),
        0 <= from <= u.len(),
    ensures
        find_from(u + s, "\\frac{"@, from) == find_from(u + s, "\\frac{"@, u.len() as int),
    decreases u.len() - from,
{
    reveal_strlit("\\frac{");
    let open = "\\frac{"@;
    let all = u + s;
    if from < u.len() {
        lemma_fraction_is_behind(u, s, from + 1);
        assert(is_no_fraction_at(u, from));
        let m = choose|m: int| 0 <= m < 6 && from + m < u.len() && #[trigger] u[from + m] != open[m];
        if occurs_at(all, open, from) {
            assert(all.subrange(from, from + 6)[m] == u[from + m]);
        }
        if from + 6 > all.len() {
            assert(find_from(all, open, u.len() as int) is None) by {
                lemma_find_from(all, open, u.len() as int);
            }
        }
    }
}

/// Fractions behind a text in which none starts are unfolded as they are on their own.
proof fn lemma_fractions_behind(u: Seq<char>, s: Seq<char>)
    requires
        starts_no_fraction(u),
    ensures
        fractions_unfolded(u + s) == u + fractions_unfolded(s),
    decreases s.len(),
{
    reveal_strlit("\\frac{");
    let open = "\\frac{"@;
    let all = u + s;
    let n = u.len();
    lemma_fraction_is_behind(u, s, 0);
    lemma_find_behind(u, s, open, 0);
    lemma_find_from(s, open, 0);
    if let Some(start) = find_from(s, open, 0) {
        lemma_find_behind(u, s, seq!['}'], start + open.len());
        lemma_find_from(s, seq!['}'], start + open.len());
        if let Some(a) = find_from(s, seq!['}'], start + open.len()) {
            lemma_find_behind(u, s, seq!['}'], a + 2);
        }
    }
    if let Some((start, a, b)) = first_fraction(s) {
        lemma_fraction_shrinks(s);
        lemma_fraction_shrinks(all);
        assert(first_fraction(all) == Some((n + start, n + a, n + b)));
        let next = fraction_unfolded(s, start, a, b);
        assert(fraction_unfolded(all, n + start, n + a, n + b) =~= u + next);
        lemma_fractions_behind(u, next);
    }
}

/// No fraction starts in a text without opening braces that ends in none of the characters that one
/// starts with.
proof fn lemma_no_fraction_without_braces(u: Seq<char>)
    requires
        lacks(u, '{'),
        u.len() > 0,
        lacks("\\frac"@, u.last()),
    ensures
        starts_no_fraction(u),
{
    reveal_strlit("\\frac{");
    reveal_strlit("\\frac");
    let open = "\\frac{"@;
    assert forall|i: int| 0 <= i < u.len() implies #[trigger] is_no_fraction_at(u, i) by {
        let m = if i + 5 < u.len() {
            5
        } else {
            u.len() - 1 - i
        };
        if i + 5 < u.len() {
            assert(u[i + m] != '{');
        } else {
            assert(u[i + m] == u.last());
            assert(m < 5 ==> "\\frac"@[m] != u.last());
            assert(m < 5 ==> open[m] == "\\frac"@[m]);
            assert(u[i + m] != '{');
        }
        assert(u[i + m] != open[m]);
    }
}

/// Fractions need braces: a text without opening ones has none to unfold.
proof fn lemma_nothing_to_unfold(u: Seq<char>)
    requires
        lacks(u, '{'),
    ensures
        fractions_unfolded(u) == u,
{
    reveal_strlit("\\frac{");
    let open = "\\frac{"@;
    lemma_find_from(u, open, 0);
    if let Some(i) = find_from(u, open, 0) {
        assert(u.subrange(i, i + 6)[5] == u[i + 5]);
    }
}

/// A character that the pattern does not hold parts a text: what is before it and what is behind it
/// are replaced each on its own.
proof fn lemma_replaced_around(
    x: Seq<char>,
    c: char,
    y: Seq<char>,
    pattern: Seq<char>,
    replacement: Seq<char>,
)
    requires
        pattern.len() > 0,
        lacks(pattern, c),
    ensures
        replaced(x + seq![c] + y, pattern, replacement) == replaced(x, pattern, replacement) + seq![
            c,
        ] + replaced(y, pattern, replacement),
    decreases x.len(),
{
    let all = x + seq![c] + y;
    let n = pattern.len() as int;
    let done = replaced(y, pattern, replacement);
    if x.len() == 0 {
        assert(all =~= seq![c] + y);
        assert(lacks(seq![c], pattern[0])) by {
            assert(pattern[0] != c);
        }
        lemma_replaced_behind(seq![c], y, pattern, replacement);
        assert(replaced(x, pattern, replacement) =~= Seq::<char>::empty());
        assert(replaced(x, pattern, replacement) + seq![c] + done =~= seq![c] + done);
    } else if occurs_at(all, pattern, 0) {
        if n > x.len() {
            assert(all.subrange(0, n)[x.len() as int] == c);
            assert(pattern[x.len() as int] != c);
        }
        assert(x.subrange(0, n) =~= all.subrange(0, n));
        assert(occurs_at(x, pattern, 0));
        assert(all.skip(n) =~= x.skip(n) + seq![c] + y);
        lemma_replaced_around(x.skip(n), c, y, pattern, replacement);
        assert(replacement + (replaced(x.skip(n), pattern, replacement) + seq![c] + done)
            =~= replaced(x, pattern, replacement) + seq![c] + done);
    } else {
        if occurs_at(x, pattern, 0) {
            assert(x.subrange(0, n) =~= all.subrange(0, n));
        }
        assert(all.skip(1) =~= x.skip(1) + seq![c] + y);
        assert(all.take(1) =~= x.take(1));
        lemma_replaced_around(x.skip(1), c, y, pattern, replacement);
        if x.len() < n {
            assert(replaced(x.skip(1), pattern, replacement) == x.skip(1));
            assert(x.take(1) + x.skip(1) =~= x);
        }
        assert(x.take(1) + (replaced(x.skip(1), pattern, replacement) + seq![c] + done) =~= replaced(
            x,
            pattern,
            replacement,
        ) + seq![c] + done);
        if all.len() < n {
            assert(done == y);
        }
    }
}

/// A character that no command of a table holds parts a text.
proof fn lemma_rewritten_around(
    x: Seq<char>,
    c: char,
    y: Seq<char>,
    rules: Seq<(&'static str, &'static str)>,
)
    requires
        all_lack(rules, c),
        all_marked(rules),
    ensures
        rewritten(x + seq![c] + y, rules) == rewritten(x, rules) + seq![c] + rewritten(y, rules),
    decreases rules.len(),
{
    if rules.len() > 0 {
        let less = rules.drop_last();
        assert forall|j: int| 0 <= j < less.len() implies lacks((#[trigger] less[j]).0@, c)
            && is_marked(less[j].0@) by {
            assert(less[j] == rules[j]);
        }
        assert forall|j: int| 0 <= j < less.len() implies is_marked(#[trigger] less[j].0@) by {
            assert(less[j] == rules[j]);
        }
        lemma_rewritten_around(x, c, y, less);
        let rule = rules[rules.len() - 1];
        assert(lacks(rule.0@, c));
        assert(is_marked(rule.0@));
        lemma_replaced_around(rewritten(x, less), c, rewritten(y, less), rule.0@, rule.1@);
    }
}

/// Replacing brings no character that neither the text nor the replacement holds.
proof fn lemma_replaced_lacks(s: Seq<char>, p: Seq<char>, r: Seq<char>, c: char)
    requires
        lacks(s, c),
        lacks(r, c),
    ensures
        lacks(replaced(s, p, r), c),
    decreases s.len(),
{
    if p.len() == 0 || s.len() < p.len() {
    } else if occurs_at(s, p, 0) {
        let rest = s.skip(p.len() as int);
        assert(lacks(rest, c)) by {
            assert forall|i: int| 0 <= i < rest.len() implies #[trigger] rest[i] != c by {
                assert(rest[i] == s[i + p.len()]);
            }
        }
        lemma_replaced_lacks(rest, p, r, c);
        lemma_both_lack(r, replaced(rest, p, r), c);
    } else {
        let rest = s.skip(1);
        assert(lacks(rest, c)) by {
            assert forall|i: int| 0 <= i < rest.len() implies #[trigger] rest[i] != c by {
                assert(rest[i] == s[i + 1]);
            }
        }
        lemma_replaced_lacks(rest, p, r, c);
        assert(lacks(s.take(1), c)) by {
            assert(s[0] != c);
        }
        lemma_both_lack(s.take(1), replaced(rest, p, r), c);
    }
}

proof fn lemma_both_lack(a: Seq<char>, b: Seq<char>, c: char)
    requires
        lacks(a, c),
        lacks(b, c),
    ensures
        lacks(a + b, c),
{
    assert forall|i: int| 0 <= i < (a + b).len() implies #[trigger] (a + b)[i] != c by {
        if i < a.len() {
            assert((a + b)[i] == a[i]);
        } else {
            assert((a + b)[i] == b[i - a.len()]);
        }
    }
}

/// Rewriting by plain symbols brings no markup.
proof fn lemma_rewritten_lacks(s: Seq<char>, rules: Seq<(&'static str, &'static str)>, c: char)
    requires
        lacks(s, c),
        !is_plain(c),
        all_shown(rules),
    ensures
        lacks(rewritten(s, rules), c),
    decreases rules.len(),
{
    if rules.len() > 0 {
        let less = rules.drop_last();
        assert forall|j: int| 0 <= j < less.len() implies all_plain((#[trigger] less[j]).1@) by {
            assert(less[j] == rules[j]);
        }
        lemma_rewritten_lacks(s, less, c);
        let r = rules[rules.len() - 1].1@;
        assert(all_plain(r));
        assert(lacks(r, c)) by {
            assert forall|i: int| 0 <= i < r.len() implies #[trigger] r[i] != c by {
                assert(is_plain(r[i]));
            }
        }
        lemma_replaced_lacks(rewritten(s, less), rules.last().0@, r, c);
    }
}

/// No command holds a space, and those for layout hold no parenthesis and no slash.
proof fn lemma_tables_lack()
    ensures
        all_lack(VULGAR_FRACTIONS@, ' '),
        all_lack(GREEK@, ' '),
        all_lack(OPERATORS@, ' '),
        all_lack(SUPERSCRIPTS@, ' '),
        all_lack(SUBSCRIPTS@, ' '),
        all_lack(LAYOUT@, ' '),
        all_lack(LAYOUT@, '('),
        all_lack(LAYOUT@, ')'),
        all_lack(LAYOUT@, '/'),
        all_lack(GREEK@, '{'),
        all_lack(GREEK@, '}'),
        all_lack(OPERATORS@, '{'),
        all_lack(OPERATORS@, '}'),
{
    lemma_vulgar_table();
    lemma_greek_table();
    lemma_operator_words();
    lemma_words_lack(GREEK@, ' ');
    lemma_words_lack(GREEK@, '{');
    lemma_words_lack(GREEK@, '}');
    lemma_words_lack(OPERATORS@, ' ');
    lemma_words_lack(OPERATORS@, '{');
    lemma_words_lack(OPERATORS@, '}');
    assert(all_lack(SUPERSCRIPTS@, ' ')) by {
        reveal_strlit("^{0}");
        reveal_strlit("^{1}");
        reveal_strlit("^{2}");
        reveal_strlit("^{3}");
        reveal_strlit("^{4}");
        reveal_strlit("^{5}");
        reveal_strlit("^{6}");
        reveal_strlit("^{7}");
        reveal_strlit("^{8}");
        reveal_strlit("^{9}");
        reveal_strlit("^{n}");
        reveal_strlit("^{i}");
        reveal_strlit("^0");
        reveal_strlit("^1");
        reveal_strlit("^2");
        reveal_strlit("^3");
        reveal_strlit("^n");
    }
    assert(all_lack(SUBSCRIPTS@, ' ')) by {
        reveal_strlit("_{0}");
        reveal_strlit("_{1}");
        reveal_strlit("_{2}");
        reveal_strlit("_{3}");
        reveal_strlit("_{4}");
        reveal_strlit("_{5}");
        reveal_strlit("_{6}");
        reveal_strlit("_{7}");
        reveal_strlit("_{8}");
        reveal_strlit("_{9}");
        reveal_strlit("_{i}");
        reveal_strlit("_{n}");
    }
    lemma_layout_lacks(' ');
    lemma_layout_lacks('(');
    lemma_layout_lacks(')');
    lemma_layout_lacks('/');
}

proof fn lemma_layout_lacks(c: char)
    requires
        c == ' ' || c == '(' || c == ')' || c == '/',
    ensures
        all_lack(LAYOUT@, c),
{
    reveal_strlit("\\left");
    reveal_strlit("\\right");
    reveal_strlit("\\,");
    reveal_strlit("\\;");
    reveal_strlit("\\quad");
    reveal_strlit("\\text{");
    reveal_strlit("\\mathbf{");
}

proof fn lemma_words_lack(rules: Seq<(&'static str, &'static str)>, c: char)
    requires
        all_words(rules),
        !is_letter(c),
        c != '\\',
    ensures
        all_lack(rules, c),
{
    assert forall|j: int| 0 <= j < rules.len() implies lacks((#[trigger] rules[j]).0@, c) by {
        let p = rules[j].0@;
        assert(is_word(p));
        assert forall|i: int| 0 <= i < p.len() implies #[trigger] p[i] != c by {
            if i > 0 {
                assert(is_letter(p[i]));
            }
        }
    }
}

/// Every symbol that takes the place of a command, a superscript or a subscript is plain.
proof fn lemma_symbols_are_plain()
    ensures
        all_shown(VULGAR_FRACTIONS@),
        all_shown(GREEK@),
        all_shown(OPERATORS@),
        all_shown(SUPERSCRIPTS@),
        all_shown(SUBSCRIPTS@),
        all_shown(LAYOUT@),
{
    lemma_vulgar_table();
    lemma_greek_table();
    lemma_operator_symbols();
    lemma_superscript_table();
    lemma_subscript_table();
    assert(all_shown(LAYOUT@)) by {
        reveal_strlit("");
        reveal_strlit(" ");
        reveal_strlit("  ");
    }
}

/// Dropping braces from two texts and a space between them.
proof fn lemma_filter_around(x: Seq<char>, mid: Seq<char>, y: Seq<char>)
    requires
        all_plain(mid),
    ensures
        (x + mid + y).filter(|c: char| no_brace(c)) == x.filter(|c: char| no_brace(c)) + mid
            + y.filter(|c: char| no_brace(c)),
{
    let keep = |c: char| no_brace(c);
    Seq::filter_distributes_over_add(x + mid, y, keep);
    Seq::filter_distributes_over_add(x, mid, keep);
    lemma_filter_plain(mid);
}

/// The words of a formula are shown each on its own: a space parts what is before it from what is
/// behind it, if no brace is open there.
pub proof fn law_words_are_shown_apart(x: Seq<char>, y: Seq<char>)
    requires
        lacks(x, '{'),
    ensures
        math_text(x + seq![' '] + y) == math_text(x) + seq![' '] + math_text(y),
{
    lemma_tables_marked();
    lemma_tables_lack();
    lemma_symbols_are_plain();
    lemma_commands_first(x + seq![' '] + y);
    lemma_commands_first(x);
    lemma_commands_first(y);
    lemma_rewritten_around(x, ' ', y, VULGAR_FRACTIONS@);
    lemma_rewritten_lacks(x, VULGAR_FRACTIONS@, '{');
    let x = rewritten(x, VULGAR_FRACTIONS@);
    let y = rewritten(y, VULGAR_FRACTIONS@);
    lemma_rewritten_around(x, ' ', y, GREEK@);
    lemma_rewritten_lacks(x, GREEK@, '{');
    let x = rewritten(x, GREEK@);
    let y = rewritten(y, GREEK@);
    lemma_rewritten_around(x, ' ', y, OPERATORS@);
    lemma_rewritten_lacks(x, OPERATORS@, '{');
    let x = rewritten(x, OPERATORS@);
    let y = rewritten(y, OPERATORS@);
    lemma_rewritten_around(x, ' ', y, SUPERSCRIPTS@);
    lemma_rewritten_lacks(x, SUPERSCRIPTS@, '{');
    let x = rewritten(x, SUPERSCRIPTS@);
    let y = rewritten(y, SUPERSCRIPTS@);
    lemma_rewritten_around(x, ' ', y, SUBSCRIPTS@);
    lemma_rewritten_lacks(x, SUBSCRIPTS@, '{');
    let x = rewritten(x, SUBSCRIPTS@);
    let y = rewritten(y, SUBSCRIPTS@);
    let u = x + seq![' '];
    lemma_both_lack(x, seq![' '], '{');
    assert(lacks("\\frac"@, u.last())) by {
        reveal_strlit("\\frac");
    }
    lemma_no_fraction_without_braces(u);
    lemma_fractions_behind(u, y);
    lemma_nothing_to_unfold(x);
    let y = fractions_unfolded(y);
    lemma_rewritten_around(x, ' ', y, LAYOUT@);
    lemma_filter_around(rewritten(x, LAYOUT@), seq![' '], rewritten(y, LAYOUT@));
}

/// A fraction as it is written, and what is behind it.
spec fn written_fraction(a: Seq<char>, b: Seq<char>) -> Seq<char> {
    "\\frac"@ + seq!['{'] + a + seq!['}'] + (Seq::<char>::empty() + seq!['{'] + b + seq!['}'])
}

/// Whether a text has no braces, carets and underscores.
pub open spec fn has_only_commands(s: Seq<char>) -> bool {
    lacks(s, '{') && lacks(s, '}') && lacks(s, '^') && lacks(s, '_')
}

/// A pattern that stands at no position of a start, whatever is behind it, leaves the start.
proof fn lemma_replaced_nowhere_before(
    h: Seq<char>,
    s: Seq<char>,
    pattern: Seq<char>,
    replacement: Seq<char>,
)
    requires
        pattern.len() > 0,
        forall|i: int| 0 <= i < h.len() ==> !#[trigger] occurs_at(h + s, pattern, i),
    ensures
        replaced(h + s, pattern, replacement) == h + replaced(s, pattern, replacement),
    decreases h.len(),
{
    let all = h + s;
    let done = replaced(s, pattern, replacement);
    if h.len() == 0 {
        assert(all =~= s);
        assert(h + done =~= done);
    } else {
        let tail = h.skip(1);
        assert(all.skip(1) =~= tail + s);
        assert forall|i: int| 0 <= i < tail.len() implies !#[trigger] occurs_at(
            tail + s,
            pattern,
            i,
        ) by {
            if occurs_at(tail + s, pattern, i) {
                assert((tail + s).subrange(i, i + pattern.len()) =~= all.subrange(
                    i + 1,
                    i + 1 + pattern.len(),
                ));
                assert(occurs_at(all, pattern, i + 1));
            }
        }
        lemma_replaced_nowhere_before(tail, s, pattern, replacement);
        assert(!occurs_at(all, pattern, 0));
        assert(all.take(1) + (tail + done) =~= h + done);
        if all.len() < pattern.len() {
            assert(done == s);
        }
    }
}

/// Where a text without braces goes on with a closing one, no fraction starts in it.
proof fn lemma_no_fraction_in_part(h: Seq<char>, at: int, part: Seq<char>, i: int)
    requires
        lacks(part, '{'),
        0 <= at,
        at + part.len() < h.len(),
        h.subrange(at, at + part.len()) == part,
        h[at + part.len()] == '}',
        at <= i <= at + part.len(),
    ensures
        is_no_fraction_at(h, i),
{
    reveal_strlit("\\frac{");
    let end = at + part.len();
    let m = if i + 5 < end {
        5
    } else {
        end - i
    };
    if i + 5 < end {
        assert(h.subrange(at, end)[i + 5 - at] == h[i + 5]);
        assert(part[i + 5 - at] != '{');
    }
    assert(h[i + m] != "\\frac{"@[m]);
}

/// Inside a fraction no other one starts.
proof fn lemma_no_fraction_inside(a: Seq<char>, b: Seq<char>)
    requires
        lacks(a, '{'),
        lacks(b, '{'),
    ensures
        forall|i: int|
            0 < i < written_fraction(a, b).len() ==> #[trigger] is_no_fraction_at(
                written_fraction(a, b),
                i,
            ),
{
    reveal_strlit("\\frac");
    reveal_strlit("\\frac{");
    let h = written_fraction(a, b);
    let x: int = 6 + a.len() as int;
    let y: int = x + 2;
    assert(h.subrange(6, x) =~= a);
    assert(h.subrange(y, y + b.len()) =~= b);
    assert forall|i: int| 0 < i < h.len() implies #[trigger] is_no_fraction_at(h, i) by {
        if i < 6 {
            assert(h[i] == "\\frac{"@[i]);
            assert(h[i + 0] != "\\frac{"@[0]);
        } else if i <= x {
            lemma_no_fraction_in_part(h, 6, a, i);
        } else if i < y {
            assert(h[i] == '{');
            assert(h[i + 0] != "\\frac{"@[0]);
        } else {
            lemma_no_fraction_in_part(h, y, b, i);
        }
    }
}

/// The numerators and denominators of the fractions that have a character of their own.
pub open spec fn is_vulgar(a: Seq<char>, b: Seq<char>) -> bool {
    ||| a == seq!['1'] && (b == seq!['2'] || b == seq!['3'] || b == seq!['4'])
    ||| a == seq!['3'] && b == seq!['4']
}

/// Any other fraction stays while those with a character of their own are replaced.
proof fn lemma_fraction_stays(a: Seq<char>, b: Seq<char>, s: Seq<char>, j: int)
    requires
        has_only_commands(a),
        has_only_commands(b),
        !is_vulgar(a, b),
        0 <= j <= 4,
    ensures
        rewritten(written_fraction(a, b) + s, VULGAR_FRACTIONS@.take(j)) == written_fraction(a, b)
            + rewritten(s, VULGAR_FRACTIONS@.take(j)),
    decreases j,
{
    let h = written_fraction(a, b);
    if j > 0 {
        lemma_fraction_stays(a, b, s, j - 1);
        let rules = VULGAR_FRACTIONS@.take(j);
        assert(rules.drop_last() =~= VULGAR_FRACTIONS@.take(j - 1));
        let t = rewritten(s, VULGAR_FRACTIONS@.take(j - 1));
        let p = VULGAR_FRACTIONS@[j - 1].0@;
        lemma_vulgar_parts(j - 1);
        assert forall|i: int| 0 <= i < h.len() implies !#[trigger] occurs_at(h + t, p, i) by {
            lemma_fraction_at_start(a, b, t, i, p);
        }
        lemma_replaced_nowhere_before(h, t, p, VULGAR_FRACTIONS@[j - 1].1@);
    }
}

/// A fraction with a character of its own, by its characters.
proof fn lemma_vulgar_parts(j: int)
    requires
        0 <= j < 4,
    ensures
        ({
            let p = VULGAR_FRACTIONS@[j].0@;
            &&& p.len() == 11
            &&& forall|m: int| 0 <= m < 6 ==> #[trigger] p[m] == "\\frac{"@[m]
            &&& p[7] == '}' && p[8] == '{' && p[10] == '}'
            &&& p[6] != '}' && p[9] != '}'
            &&& is_vulgar(seq![p[6]], seq![p[9]])
        }),
{
    reveal_strlit("\\frac{");
    reveal_strlit("\\frac{1}{2}");
    reveal_strlit("\\frac{1}{3}");
    reveal_strlit("\\frac{1}{4}");
    reveal_strlit("\\frac{3}{4}");
}

/// The name of a fraction is no other command.
proof fn lemma_fraction_is_no_command()
    ensures
        rewritten("\\frac"@, GREEK@) == "\\frac"@,
        rewritten("\\frac"@, OPERATORS@) == "\\frac"@,
{
    let word = "\\frac"@;
    let none = Seq::<char>::empty();
    reveal_strlit("\\frac");
    lemma_greek_table();
    lemma_operator_words();
    lemma_commands_differ();
    assert(is_word(word));
    assert(word + none =~= word);
    assert forall|j: int| 0 <= j < 31 implies clash((#[trigger] GREEK@[j]).0@, word) by {
        assert(is_word(GREEK@[j].0@));
    }
    lemma_word_is_no_greek_letter(word, none);
    lemma_rewritten_empty(GREEK@);
    assert forall|j: int| 0 <= j < 51 implies clash((#[trigger] OPERATORS@[j]).0@, word) by {
        assert(is_word(OPERATORS@[j].0@));
    }
    lemma_word_is_no_operator(word, none, 51);
    assert(OPERATORS@.take(51) =~= OPERATORS@);
    lemma_rewritten_empty(OPERATORS@);
}

/// In a fraction, numerator and denominator are rewritten each on its own.
proof fn lemma_rewritten_in_fraction(
    a: Seq<char>,
    b: Seq<char>,
    s: Seq<char>,
    rules: Seq<(&'static str, &'static str)>,
)
    requires
        all_lack(rules, '{'),
        all_lack(rules, '}'),
        all_marked(rules),
        rewritten("\\frac"@, rules) == "\\frac"@,
    ensures
        rewritten(written_fraction(a, b) + s, rules) == written_fraction(
            rewritten(a, rules),
            rewritten(b, rules),
        ) + rewritten(s, rules),
{
    let none = Seq::<char>::empty();
    let w = "\\frac"@;
    let tail = none + seq!['{'] + (b + seq!['}'] + s);
    assert(written_fraction(a, b) + s =~= w + seq!['{'] + (a + seq!['}'] + tail));
    lemma_rewritten_around(w, '{', a + seq!['}'] + tail, rules);
    lemma_rewritten_around(a, '}', tail, rules);
    lemma_rewritten_around(none, '{', b + seq!['}'] + s, rules);
    lemma_rewritten_around(b, '}', s, rules);
    lemma_rewritten_empty(rules);
    assert(written_fraction(rewritten(a, rules), rewritten(b, rules)) + rewritten(s, rules) =~= w
        + seq!['{'] + (rewritten(a, rules) + seq!['}'] + (none + seq!['{'] + (rewritten(b, rules)
        + seq!['}'] + rewritten(s, rules)))));
}

/// A fraction is written as its numerator and its denominator in parentheses.
spec fn unfolded_fraction(a: Seq<char>, b: Seq<char>) -> Seq<char> {
    seq!['('] + a + seq![')', '/', '('] + b + seq![')']
}

/// The first fraction of a text that starts with one.
proof fn lemma_fraction_is_unfolded(a: Seq<char>, b: Seq<char>, s: Seq<char>)
    requires
        lacks(a, '{'),
        lacks(a, '}'),
        lacks(b, '{'),
        lacks(b, '}'),
    ensures
        fractions_unfolded(written_fraction(a, b) + s) == unfolded_fraction(a, b)
            + fractions_unfolded(s),
{
    reveal_strlit("\\frac{");
    reveal_strlit("\\frac");
    let open = "\\frac{"@;
    let close = seq!['}'];
    let all = written_fraction(a, b) + s;
    let x: int = 6 + a.len() as int;
    let y: int = x + 2 + b.len();
    assert(all.subrange(0, 6) =~= open);
    assert(find_from(all, open, 0) == Some(0int));
    assert forall|i: int| 6 <= i < x implies all[i] != '}' by {
        assert(all[i] == a[i - 6]);
    }
    lemma_find_brace(all, 6, x);
    assert(all[x + 1] == '{');
    assert forall|i: int| x + 2 <= i < y implies all[i] != '}' by {
        assert(all[i] == b[i - x - 2]);
    }
    lemma_find_brace(all, x + 2, y);
    assert(first_fraction(all) == Some((0int, x, y)));
    let u = unfolded_fraction(a, b);
    lemma_fraction_shrinks(all);
    assert(fraction_unfolded(all, 0, x, y) =~= u + s);
    lemma_both_lack(seq!['('], a, '{');
    lemma_both_lack(seq!['('] + a, seq![')', '/', '('], '{');
    lemma_both_lack(seq!['('] + a + seq![')', '/', '('], b, '{');
    lemma_both_lack(seq!['('] + a + seq![')', '/', '('] + b, seq![')'], '{');
    lemma_no_fraction_without_braces(u);
    lemma_fractions_behind(u, s);
}

/// The first closing brace is the one that no other is before.
proof fn lemma_find_brace(s: Seq<char>, from: int, at: int)
    requires
        0 <= from <= at < s.len(),
        s[at] == '}',
        forall|i: int| from <= i < at ==> s[i] != '}',
    ensures
        find_from(s, seq!['}'], from) == Some(at),
    decreases at - from,
{
    assert(s.subrange(from, from + 1) =~= seq![s[from]]);
    if from < at {
        assert(s.subrange(from, from + 1)[0] != seq!['}'][0]);
        lemma_find_brace(s, from + 1, at);
    }
}

/// What a text with commands alone looks like.
proof fn lemma_only_commands(a: Seq<char>)
    requires
        has_only_commands(a),
    ensures
        rewritten(a, VULGAR_FRACTIONS@) == a,
        has_only_commands(rewritten(rewritten(a, GREEK@), OPERATORS@)),
        math_text(a) == laid_out(rewritten(rewritten(a, GREEK@), OPERATORS@)),
{
    let none = Seq::<char>::empty();
    lemma_symbols_are_plain();
    lemma_no_vulgar_fraction(a, 4);
    assert(VULGAR_FRACTIONS@.take(4) =~= VULGAR_FRACTIONS@);
    let x = rewritten(a, GREEK@);
    lemma_rewritten_lacks(a, GREEK@, '{');
    lemma_rewritten_lacks(a, GREEK@, '}');
    lemma_rewritten_lacks(a, GREEK@, '^');
    lemma_rewritten_lacks(a, GREEK@, '_');
    let y = rewritten(x, OPERATORS@);
    lemma_rewritten_lacks(x, OPERATORS@, '{');
    lemma_rewritten_lacks(x, OPERATORS@, '}');
    lemma_rewritten_lacks(x, OPERATORS@, '^');
    lemma_rewritten_lacks(x, OPERATORS@, '_');
    lemma_superscript_table();
    lemma_subscript_table();
    lemma_text_passes(y, none, SUPERSCRIPTS@, '^');
    lemma_text_passes(y, none, SUBSCRIPTS@, '_');
    lemma_rewritten_empty(SUPERSCRIPTS@);
    lemma_rewritten_empty(SUBSCRIPTS@);
    assert(y + none =~= y);
    lemma_nothing_to_unfold(y);
    lemma_commands_first(a);
}

/// Fractions with a character of their own need braces.
proof fn lemma_no_vulgar_fraction(a: Seq<char>, j: int)
    requires
        lacks(a, '{'),
        0 <= j <= 4,
    ensures
        rewritten(a, VULGAR_FRACTIONS@.take(j)) == a,
    decreases j,
{
    if j > 0 {
        let p = VULGAR_FRACTIONS@[j - 1].0@;
        let none = Seq::<char>::empty();
        lemma_no_vulgar_fraction(a, j - 1);
        assert(VULGAR_FRACTIONS@.take(j).drop_last() =~= VULGAR_FRACTIONS@.take(j - 1));
        lemma_vulgar_parts(j - 1);
        assert forall|i: int| 0 <= i < a.len() implies !#[trigger] occurs_at(a + none, p, i) by {
            if occurs_at(a + none, p, i) {
                assert((a + none).subrange(i, i + 11)[8] == a[i + 8]);
            }
        }
        lemma_replaced_nowhere_before(a, none, p, VULGAR_FRACTIONS@[j - 1].1@);
        assert(a + none =~= a);
    } else {
        assert(VULGAR_FRACTIONS@.take(0) =~= Seq::empty());
    }
}

/// A fraction is shown as its numerator and its denominator, each as it is shown on its own, in
/// parentheses and with a slash between them, unless it has a character of its own; and what is
/// behind it as it is on its own.
pub proof fn law_fractions_are_shown(a: Seq<char>, b: Seq<char>, rest: Seq<char>)
    requires
        has_only_commands(a),
        has_only_commands(b),
        !is_vulgar(a, b),
    ensures
        math_text("\\frac{"@ + a + "}{"@ + b + "}"@ + rest) == seq!['('] + math_text(a) + seq![
            ')',
            '/',
            '(',
        ] + math_text(b) + seq![')'] + math_text(rest),
{
    reveal_strlit("\\frac{");
    reveal_strlit("\\frac");
    reveal_strlit("}{");
    reveal_strlit("}");
    let source = "\\frac{"@ + a + "}{"@ + b + "}"@ + rest;
    assert(source =~= written_fraction(a, b) + rest);
    lemma_commands_first(source);
    lemma_commands_first(rest);
    lemma_only_commands(a);
    lemma_only_commands(b);
    lemma_tables_marked();
    lemma_tables_lack();
    lemma_fraction_stays(a, b, rest, 4);
    assert(VULGAR_FRACTIONS@.take(4) =~= VULGAR_FRACTIONS@);
    let s = rewritten(rest, VULGAR_FRACTIONS@);
    lemma_fraction_is_no_command();
    lemma_rewritten_in_fraction(a, b, s, GREEK@);
    let x = rewritten(a, GREEK@);
    let y = rewritten(b, GREEK@);
    let s = rewritten(s, GREEK@);
    lemma_rewritten_in_fraction(x, y, s, OPERATORS@);
    let x = rewritten(x, OPERATORS@);
    let y = rewritten(y, OPERATORS@);
    let s = rewritten(s, OPERATORS@);
    let h = written_fraction(x, y);
    lemma_fraction_lacks(x, y, '^');
    lemma_fraction_lacks(x, y, '_');
    lemma_superscript_table();
    lemma_subscript_table();
    lemma_text_passes(h, s, SUPERSCRIPTS@, '^');
    let s = rewritten(s, SUPERSCRIPTS@);
    lemma_text_passes(h, s, SUBSCRIPTS@, '_');
    let s = rewritten(s, SUBSCRIPTS@);
    lemma_fraction_is_unfolded(x, y, s);
    let s = fractions_unfolded(s);
    lemma_laid_out_fraction(x, y, s);
}

proof fn lemma_fraction_lacks(a: Seq<char>, b: Seq<char>, c: char)
    requires
        lacks(a, c),
        lacks(b, c),
        c == '^' || c == '_',
    ensures
        lacks(written_fraction(a, b), c),
{
    reveal_strlit("\\frac");
    let none = Seq::<char>::empty();
    let w = "\\frac"@;
    lemma_both_lack(w, seq!['{'], c);
    lemma_both_lack(w + seq!['{'], a, c);
    lemma_both_lack(w + seq!['{'] + a, seq!['}'], c);
    lemma_both_lack(none, seq!['{'], c);
    lemma_both_lack(none + seq!['{'], b, c);
    lemma_both_lack(none + seq!['{'] + b, seq!['}'], c);
    lemma_both_lack(w + seq!['{'] + a + seq!['}'], none + seq!['{'] + b + seq!['}'], c);
}

/// The parts of an unfolded fraction are laid out each on its own.
proof fn lemma_laid_out_fraction(a: Seq<char>, b: Seq<char>, s: Seq<char>)
    ensures
        laid_out(unfolded_fraction(a, b) + s) == seq!['('] + laid_out(a) + seq![')', '/', '(']
            + laid_out(b) + seq![')'] + laid_out(s),
{
    let none = Seq::<char>::empty();
    let keep = |c: char| no_brace(c);
    lemma_tables_marked();
    lemma_tables_lack();
    lemma_rewritten_empty(LAYOUT@);
    let t = b + seq![')'] + s;
    let r = none + seq!['('] + t;
    let q = none + seq!['/'] + r;
    let p = a + seq![')'] + q;
    assert(unfolded_fraction(a, b) + s =~= none + seq!['('] + p);
    lemma_rewritten_around(none, '(', p, LAYOUT@);
    lemma_rewritten_around(a, ')', q, LAYOUT@);
    lemma_rewritten_around(none, '/', r, LAYOUT@);
    lemma_rewritten_around(none, '(', t, LAYOUT@);
    lemma_rewritten_around(b, ')', s, LAYOUT@);
    let x = rewritten(a, LAYOUT@);
    let y = rewritten(b, LAYOUT@);
    let z = rewritten(s, LAYOUT@);
    assert(rewritten(unfolded_fraction(a, b) + s, LAYOUT@) =~= seq!['('] + (x + seq![')', '/', '(']
        + (y + seq![')'] + z)));
    assert(all_plain(seq!['(']));
    assert(all_plain(seq![')', '/', '(']));
    assert(all_plain(seq![')']));
    lemma_filter_around(none, seq!['('], x + seq![')', '/', '('] + (y + seq![')'] + z));
    assert(none + seq!['('] + (x + seq![')', '/', '('] + (y + seq![')'] + z)) =~= seq!['('] + (x
        + seq![')', '/', '('] + (y + seq![')'] + z)));
    lemma_filter_around(x, seq![')', '/', '('], y + seq![')'] + z);
    lemma_filter_around(y, seq![')'], z);
    lemma_filter_plain(none);
    assert(none + seq!['('] + (x.filter(keep) + seq![')', '/', '('] + (y.filter(keep) + seq![')']
        + z.filter(keep))) =~= seq!['('] + x.filter(keep) + seq![')', '/', '('] + y.filter(keep)
        + seq![')'] + z.filter(keep));
}

/// The commands for layout.
#[verifier::rlimit(30)]
proof fn lemma_layout_table()
    ensures
        forall|k: int|
            0 <= k < 7 ==> {
                let h = (#[trigger] LAYOUT@[k]).0@;
                &&& h.len() >= 2
                &&& h[0] == '\\'
                &&& h[1] != 'f'
                &&& lacks(h.skip(1), '\\')
                &&& lacks(h, '^')
                &&& lacks(h, '_')
            },
        forall|k: int| 0 <= k < 2 ==> is_word((#[trigger] LAYOUT@[k]).0@),
        forall|j: int, k: int|
            0 <= j < k < 7 ==> clash((#[trigger] LAYOUT@[j]).0@, (#[trigger] LAYOUT@[k]).0@),
{
    reveal_strlit("\\left");
    reveal_strlit("\\right");
    reveal_strlit("\\,");
    reveal_strlit("\\;");
    reveal_strlit("\\quad");
    reveal_strlit("\\text{");
    reveal_strlit("\\mathbf{");
}

/// The commands for layout differ from those for symbols, but that two of them begin arrows.
#[verifier::rlimit(30)]
proof fn lemma_layout_differs()
    ensures
        forall|j: int, k: int|
            0 <= j < 31 && 0 <= k < 7 ==> clash(
                (#[trigger] GREEK@[j]).0@,
                (#[trigger] LAYOUT@[k]).0@,
            ),
        forall|j: int, k: int|
            0 <= j < 51 && 0 <= k < 7 ==> {
                ||| clash((#[trigger] OPERATORS@[j]).0@, (#[trigger] LAYOUT@[k]).0@)
                ||| k < 2 && j < 43 && OPERATORS@[j].0@.len() > LAYOUT@[k].0@.len()
            },
{
    reveal_strlit("\\left");
    reveal_strlit("\\right");
    reveal_strlit("\\,");
    reveal_strlit("\\;");
    reveal_strlit("\\quad");
    reveal_strlit("\\text{");
    reveal_strlit("\\mathbf{");
    reveal_strlit("\\alpha");
    reveal_strlit("\\beta");
    reveal_strlit("\\gamma");
    reveal_strlit("\\delta");
    reveal_strlit("\\epsilon");
    reveal_strlit("\\zeta");
    reveal_strlit("\\eta");
    reveal_strlit("\\theta");
    reveal_strlit("\\iota");
    reveal_strlit("\\kappa");
    reveal_strlit("\\lambda");
    reveal_strlit("\\mu");
    reveal_strlit("\\nu");
    reveal_strlit("\\xi");
    reveal_strlit("\\pi");
    reveal_strlit("\\rho");
    reveal_strlit("\\sigma");
    reveal_strlit("\\tau");
    reveal_strlit("\\phi");
    reveal_strlit("\\chi");
    reveal_strlit("\\psi");
    reveal_strlit("\\omega");
    reveal_strlit("\\Sigma");
    reveal_strlit("\\Pi");
    reveal_strlit("\\Omega");
    reveal_strlit("\\Delta");
    reveal_strlit("\\Gamma");
    reveal_strlit("\\Lambda");
    reveal_strlit("\\Phi");
    reveal_strlit("\\Psi");
    reveal_strlit("\\Theta");
    reveal_strlit("\\times");
    reveal_strlit("\\div");
    reveal_strlit("\\pm");
    reveal_strlit("\\mp");
    reveal_strlit("\\cdot");
    reveal_strlit("\\cdots");
    reveal_strlit("\\ldots");
    reveal_strlit("\\leq");
    reveal_strlit("\\geq");
    reveal_strlit("\\neq");
    reveal_strlit("\\approx");
    reveal_strlit("\\equiv");
    reveal_strlit("\\infty");
    reveal_strlit("\\sum");
    reveal_strlit("\\prod");
    reveal_strlit("\\int");
    reveal_strlit("\\partial");
    reveal_strlit("\\nabla");
    reveal_strlit("\\forall");
    reveal_strlit("\\exists");
    reveal_strlit("\\in");
    reveal_strlit("\\notin");
    reveal_strlit("\\subset");
    reveal_strlit("\\supset");
    reveal_strlit("\\subseteq");
    reveal_strlit("\\supseteq");
    reveal_strlit("\\cup");
    reveal_strlit("\\cap");
    reveal_strlit("\\emptyset");
    reveal_strlit("\\to");
    reveal_strlit("\\rightarrow");
    reveal_strlit("\\leftarrow");
    reveal_strlit("\\Rightarrow");
    reveal_strlit("\\Leftarrow");
    reveal_strlit("\\leftrightarrow");
    reveal_strlit("\\Leftrightarrow");
    reveal_strlit("\\sqrt");
    reveal_strlit("\\langle");
    reveal_strlit("\\rangle");
    reveal_strlit("\\lceil");
    reveal_strlit("\\rceil");
    reveal_strlit("\\lfloor");
    reveal_strlit("\\rfloor");
    reveal_strlit("\\cos");
    reveal_strlit("\\sin");
    reveal_strlit("\\tan");
    reveal_strlit("\\log");
    reveal_strlit("\\ln");
    reveal_strlit("\\lim");
    reveal_strlit("\\max");
    reveal_strlit("\\min");
}

/// A command for layout stays while commands become symbols.
proof fn lemma_layout_is_no_symbol(k: int, rest: Seq<char>)
    requires
        0 <= k < 7,
        k < 2 ==> ends_word(rest),
    ensures
        without_commands(LAYOUT@[k].0@ + rest) == LAYOUT@[k].0@ + without_commands(rest),
{
    let h = LAYOUT@[k].0@;
    lemma_layout_table();
    lemma_layout_differs();
    lemma_vulgar_table();
    lemma_commands_start();
    lemma_greek_table();
    assert forall|j: int| 0 <= j < VULGAR_FRACTIONS@.len() implies {
        let p = (#[trigger] VULGAR_FRACTIONS@[j]).0@;
        p.len() > 0 && clash(p, h) && lacks(h.skip(1), p[0])
    } by {}
    lemma_head_passes(h, rest, VULGAR_FRACTIONS@);
    if ends_word(rest) {
        lemma_end_stays_in_table(rest, VULGAR_FRACTIONS@, '\\');
    }
    let s = rewritten(rest, VULGAR_FRACTIONS@);
    assert forall|j: int| 0 <= j < GREEK@.len() implies {
        let p = (#[trigger] GREEK@[j]).0@;
        p.len() > 0 && clash(p, h) && lacks(h.skip(1), p[0])
    } by {}
    lemma_head_passes(h, s, GREEK@);
    if ends_word(s) {
        lemma_end_stays_in_table(s, GREEK@, '\\');
    }
    let t = rewritten(s, GREEK@);
    if k < 2 {
        assert(is_word(LAYOUT@[k].0@));
        lemma_word_is_no_operator(h, t, 43);
        let some = OPERATORS@.take(43);
        let more = OPERATORS@.skip(43);
        assert forall|j: int| 0 <= j < more.len() implies {
            let p = (#[trigger] more[j]).0@;
            p.len() > 0 && clash(p, h) && lacks(h.skip(1), p[0])
        } by {
            assert(more[j] == OPERATORS@[j + 43]);
            assert(OPERATORS@[j + 43].0@.len() > 0);
        }
        lemma_head_passes(h, rewritten(t, some), more);
        lemma_rewritten_in_two_parts(h + t, OPERATORS@, 43);
        lemma_rewritten_in_two_parts(t, OPERATORS@, 43);
    } else {
        assert forall|j: int| 0 <= j < OPERATORS@.len() implies {
            let p = (#[trigger] OPERATORS@[j]).0@;
            p.len() > 0 && clash(p, h) && lacks(h.skip(1), p[0])
        } by {}
        lemma_head_passes(h, t, OPERATORS@);
    }
}

/// A command for layout becomes what it stands for.
proof fn lemma_layout(k: int, rest: Seq<char>)
    requires
        0 <= k < 7,
        k < 2 ==> ends_word(rest),
    ensures
        math_text(LAYOUT@[k].0@ + rest) == LAYOUT@[k].1@ + math_text(rest),
{
    let h = LAYOUT@[k].0@;
    let r = LAYOUT@[k].1@;
    let keep = |c: char| no_brace(c);
    lemma_layout_table();
    lemma_symbols_are_plain();
    lemma_tables_marked();
    lemma_superscript_table();
    lemma_subscript_table();
    lemma_commands_first(h + rest);
    lemma_commands_first(rest);
    lemma_layout_is_no_symbol(k, rest);
    let s = without_commands(rest);
    lemma_text_passes(h, s, SUPERSCRIPTS@, '^');
    let s = rewritten(s, SUPERSCRIPTS@);
    lemma_text_passes(h, s, SUBSCRIPTS@, '_');
    let s = rewritten(s, SUBSCRIPTS@);
    assert(starts_no_fraction(h)) by {
        reveal_strlit("\\frac{");
        assert forall|i: int| 0 <= i < h.len() implies #[trigger] is_no_fraction_at(h, i) by {
            if i == 0 {
                assert(h[i + 1] != "\\frac{"@[1]);
            } else {
                assert(h.skip(1)[i - 1] == h[i]);
                assert(h[i + 0] != "\\frac{"@[0]);
            }
        }
    }
    lemma_fractions_behind(h, s);
    let s = fractions_unfolded(s);
    let some = LAYOUT@.take(k);
    assert forall|j: int| 0 <= j < some.len() implies {
        let p = (#[trigger] some[j]).0@;
        p.len() > 0 && clash(p, h) && lacks(h.skip(1), p[0])
    } by {
        assert(some[j] == LAYOUT@[j]);
    }
    lemma_head_passes(h, s, some);
    assert(all_plain(r));
    lemma_own_rule(s, LAYOUT@, k);
    Seq::filter_distributes_over_add(r, rewritten(s, LAYOUT@), keep);
    lemma_filter_plain(r);
}

/// Sizes of delimiters and starts of font commands are not shown, commands for space are shown as
/// spaces, and what is behind them as it is on its own. Those for sizes must end there, as they
/// begin arrows.
pub proof fn law_layout_is_shown(rest: Seq<char>)
    ensures
        ends_word(rest) ==> math_text("\\left"@ + rest) == math_text(rest),
        ends_word(rest) ==> math_text("\\right"@ + rest) == math_text(rest),
        math_text("\\,"@ + rest) == seq![' '] + math_text(rest),
        math_text("\\;"@ + rest) == seq![' '] + math_text(rest),
        math_text("\\quad"@ + rest) == seq![' ', ' '] + math_text(rest),
        math_text("\\text{"@ + rest) == math_text(rest),
        math_text("\\mathbf{"@ + rest) == math_text(rest),
{
    reveal_strlit("");
    reveal_strlit(" ");
    reveal_strlit("  ");
    assert(" "@ =~= seq![' ']);
    assert("  "@ =~= seq![' ', ' ']);
    assert(""@ + math_text(rest) =~= math_text(rest));
    if ends_word(rest) {
        lemma_layout(0, rest);
        lemma_layout(1, rest);
    }
    lemma_layout(2, rest);
    lemma_layout(3, rest);
    lemma_layout(4, rest);
    lemma_layout(5, rest);
    lemma_layout(6, rest);
}

/// A brace that no command takes is not shown, and what is behind it is shown as it is on its own.
pub proof fn law_braces_are_not_shown(brace: char, rest: Seq<char>)
    requires
        brace == '{' || brace == '}',
    ensures
        math_text(seq![brace] + rest) == math_text(rest),
{
    let h = seq![brace];
    let keep = |c: char| no_brace(c);
    lemma_superscript_table();
    lemma_subscript_table();
    lemma_layout_table();
    lemma_commands_first(h + rest);
    lemma_commands_first(rest);
    lemma_no_command(h, rest);
    let s = without_commands(rest);
    lemma_text_passes(h, s, SUPERSCRIPTS@, '^');
    let s = rewritten(s, SUPERSCRIPTS@);
    lemma_text_passes(h, s, SUBSCRIPTS@, '_');
    let s = rewritten(s, SUBSCRIPTS@);
    assert(starts_no_fraction(h)) by {
        reveal_strlit("\\frac{");
        assert(h[0int + 0int] != "\\frac{"@[0]);
        assert(is_no_fraction_at(h, 0));
    }
    lemma_fractions_behind(h, s);
    let s = fractions_unfolded(s);
    lemma_text_passes(h, s, LAYOUT@, '\\');
    Seq::filter_distributes_over_add(h, rewritten(s, LAYOUT@), keep);
    reveal(Seq::filter);
    assert(h.drop_last() =~= Seq::empty());
    assert(h.drop_last().filter(keep) =~= Seq::<char>::empty());
    assert(!keep(h.last()));
    assert(h.filter(keep) =~= Seq::<char>::empty());
    assert(Seq::<char>::empty() + laid_out(s) =~= laid_out(s));
}

/// Whether two texts differ where both have a character.
pub open spec fn is_apart(p: Seq<char>, h: Seq<char>) -> bool {
    exists|i: int| 0 <= i < p.len() && i < h.len() && #[trigger] p[i] != h[i]
}

/// Whether no command of a table begins a text or is begun by it.
pub open spec fn all_apart(rules: Seq<(&'static str, &'static str)>, h: Seq<char>) -> bool {
    forall|j: int| 0 <= j < rules.len() ==> is_apart((#[trigger] rules[j]).0@, h)
}

/// A start from which every command of a table differs stays.
proof fn lemma_apart_passes(
    h: Seq<char>,
    s: Seq<char>,
    rules: Seq<(&'static str, &'static str)>,
    c: char,
)
    requires
        h.len() > 0,
        all_start(rules, c),
        all_apart(rules, h),
        lacks(h.skip(1), c),
    ensures
        rewritten(h + s, rules) == h + rewritten(s, rules),
    decreases rules.len(),
{
    if rules.len() > 0 {
        let less = rules.drop_last();
        assert forall|j: int| 0 <= j < less.len() implies (#[trigger] less[j]).0@.len() > 0
            && less[j].0@[0] == c && is_apart(less[j].0@, h) by {
            assert(less[j] == rules[j]);
        }
        lemma_apart_passes(h, s, less, c);
        let rule = rules[rules.len() - 1];
        let p = rule.0@;
        let t = rewritten(s, less);
        assert(p.len() > 0 && p[0] == c && is_apart(p, h));
        if occurs_at(h + t, p, 0) {
            let i = choose|i: int| 0 <= i < p.len() && i < h.len() && #[trigger] p[i] != h[i];
            assert((h + t).subrange(0, p.len() as int)[i] == h[i]);
        }
        lemma_replaced_head(h, t, p, rule.1@);
    }
}

/// A start that is no command, superscript or subscript, and in which no fraction starts, is shown
/// but for its braces, and what is behind it as it is on its own.
proof fn lemma_start_stays(h: Seq<char>, rest: Seq<char>)
    requires
        h.len() > 0,
        lacks(h, '\\') || (lacks(h.skip(1), '\\') && all_apart(VULGAR_FRACTIONS@, h) && all_apart(
            GREEK@,
            h,
        ) && all_apart(OPERATORS@, h) && all_apart(LAYOUT@, h)),
        lacks(h, '^') || (lacks(h.skip(1), '^') && all_apart(SUPERSCRIPTS@, h)),
        lacks(h, '_') || (lacks(h.skip(1), '_') && all_apart(SUBSCRIPTS@, h)),
        starts_no_fraction(h),
    ensures
        math_text(h + rest) == h.filter(|c: char| no_brace(c)) + math_text(rest),
{
    lemma_commands_start();
    lemma_superscript_table();
    lemma_subscript_table();
    lemma_layout_table();
    lemma_commands_first(h + rest);
    lemma_commands_first(rest);
    if lacks(h, '\\') {
        lemma_no_command(h, rest);
    } else {
        lemma_apart_passes(h, rest, VULGAR_FRACTIONS@, '\\');
        let s = rewritten(rest, VULGAR_FRACTIONS@);
        lemma_apart_passes(h, s, GREEK@, '\\');
        lemma_apart_passes(h, rewritten(s, GREEK@), OPERATORS@, '\\');
    }
    let s = without_commands(rest);
    if lacks(h, '^') {
        lemma_text_passes(h, s, SUPERSCRIPTS@, '^');
    } else {
        lemma_apart_passes(h, s, SUPERSCRIPTS@, '^');
    }
    let s = rewritten(s, SUPERSCRIPTS@);
    if lacks(h, '_') {
        lemma_text_passes(h, s, SUBSCRIPTS@, '_');
    } else {
        lemma_apart_passes(h, s, SUBSCRIPTS@, '_');
    }
    let s = rewritten(s, SUBSCRIPTS@);
    lemma_fractions_behind(h, s);
    let s = fractions_unfolded(s);
    if lacks(h, '\\') {
        lemma_text_passes(h, s, LAYOUT@, '\\');
    } else {
        lemma_apart_passes(h, s, LAYOUT@, '\\');
    }
    Seq::filter_distributes_over_add(h, rewritten(s, LAYOUT@), |c: char| no_brace(c));
}

/// A command that is none of the known ones is shown as it is written, and what is behind it as it
/// is on its own.
pub proof fn law_unknown_commands_stay(word: Seq<char>, rest: Seq<char>)
    requires
        is_word(word),
        all_apart(GREEK@, word),
        all_apart(OPERATORS@, word),
        all_apart(LAYOUT@, word),
        is_apart("\\frac"@, word),
    ensures
        math_text(word + rest) == word + math_text(rest),
{
    reveal_strlit("\\frac");
    reveal_strlit("\\frac{");
    let frac = "\\frac"@;
    let n = choose|i: int| 0 <= i < frac.len() && i < word.len() && #[trigger] frac[i] != word[i];
    lemma_word_has_one_backslash(word);
    assert forall|j: int| 0 <= j < 4 implies is_apart(
        (#[trigger] VULGAR_FRACTIONS@[j]).0@,
        word,
    ) by {
        lemma_vulgar_parts(j);
        assert(VULGAR_FRACTIONS@[j].0@[n] == "\\frac{"@[n]);
        assert("\\frac{"@[n] == frac[n]);
    }
    assert forall|i: int| 0 <= i < word.len() implies #[trigger] is_no_fraction_at(word, i) by {
        if i == 0 {
            assert("\\frac{"@[n] == frac[n]);
            assert(word[i + n] != "\\frac{"@[n]);
        } else {
            assert(is_letter(word[i]));
            assert(word[i + 0] != "\\frac{"@[0]);
        }
    }
    assert forall|i: int| 0 <= i < word.len() implies no_brace(#[trigger] word[i]) && word[i] != '^'
        && word[i] != '_' by {
        if i > 0 {
            assert(is_letter(word[i]));
        }
    }
    lemma_start_stays(word, rest);
    lemma_filter_keeps(word);
}

/// A text without braces has none to drop.
proof fn lemma_filter_keeps(s: Seq<char>)
    requires
        forall|i: int| 0 <= i < s.len() ==> no_brace(#[trigger] s[i]),
    ensures
        s.filter(|c: char| no_brace(c)) == s,
    decreases s.len(),
{
    reveal(Seq::filter);
    if s.len() > 0 {
        let rest = s.drop_last();
        assert forall|i: int| 0 <= i < rest.len() implies no_brace(#[trigger] rest[i]) by {
            assert(rest[i] == s[i]);
        }
        lemma_filter_keeps(rest);
        assert(no_brace(s[s.len() - 1]));
        assert(rest.push(s.last()) =~= s);
    }
}

/// Superscripts and subscripts that have no characters of their own are shown as they are written,
/// but without their braces.
pub proof fn law_other_scripts_stay(c: char, d: char, rest: Seq<char>)
    requires
        is_plain(c),
        is_plain(d),
    ensures
        math_text(seq!['_', c] + rest) == seq!['_', c] + math_text(rest),
        !set!['0', '1', '2', '3', 'n'].contains(c) ==> math_text(seq!['^', c] + rest) == seq!['^', c]
            + math_text(rest),
        math_text(seq!['_', '{', c, d] + rest) == seq!['_', c, d] + math_text(rest),
        math_text(seq!['^', '{', c, d] + rest) == seq!['^', c, d] + math_text(rest),
{
    reveal_strlit("\\frac{");
    lemma_scripts_apart(c, d);
    let keep = |c: char| no_brace(c);
    let h = seq!['_', c];
    lemma_no_backslash(h);
    lemma_start_stays(h, rest);
    lemma_filter_keeps(h);
    let h = seq!['^', c];
    if !set!['0', '1', '2', '3', 'n'].contains(c) {
        lemma_no_backslash(h);
        lemma_start_stays(h, rest);
        lemma_filter_keeps(h);
    }
    let h = seq!['_', '{', c, d];
    lemma_no_backslash(h);
    lemma_start_stays(h, rest);
    lemma_filter_second(h);
    assert(seq![h[0]] + h.skip(2) =~= seq!['_', c, d]);
    let h = seq!['^', '{', c, d];
    lemma_no_backslash(h);
    lemma_start_stays(h, rest);
    lemma_filter_second(h);
    assert(seq![h[0]] + h.skip(2) =~= seq!['^', c, d]);
}

/// No fraction starts in a text without backslashes.
proof fn lemma_no_backslash(h: Seq<char>)
    requires
        lacks(h, '\\'),
    ensures
        starts_no_fraction(h),
{
    reveal_strlit("\\frac{");
    assert forall|i: int| 0 <= i < h.len() implies #[trigger] is_no_fraction_at(h, i) by {
        assert(h[i] != '\\');
        assert(h[i + 0] != "\\frac{"@[0]);
    }
}

/// A brace at the second place goes, and nothing else.
proof fn lemma_filter_second(h: Seq<char>)
    requires
        h.len() > 1,
        h[1] == '{',
        forall|i: int| 0 <= i < h.len() && i != 1 ==> no_brace(#[trigger] h[i]),
    ensures
        h.filter(|c: char| no_brace(c)) == seq![h[0]] + h.skip(2),
{
    let keep = |c: char| no_brace(c);
    let one = seq![h[0]];
    let brace = seq![h[1]];
    let tail = h.skip(2);
    assert(h =~= one + brace + tail);
    Seq::filter_distributes_over_add(one + brace, tail, keep);
    Seq::filter_distributes_over_add(one, brace, keep);
    lemma_filter_keeps(one);
    assert forall|i: int| 0 <= i < tail.len() implies no_brace(#[trigger] tail[i]) by {
        assert(tail[i] == h[i + 2]);
    }
    lemma_filter_keeps(tail);
    reveal(Seq::filter);
    assert(brace.drop_last() =~= Seq::empty());
    assert(brace.drop_last().filter(keep) =~= Seq::<char>::empty());
    assert(!keep(brace.last()));
    assert(brace.filter(keep) =~= Seq::<char>::empty());
    assert(one + Seq::<char>::empty() =~= one);
}

/// The superscripts and subscripts with characters of their own differ from others.
#[verifier::rlimit(30)]
proof fn lemma_scripts_apart(c: char, d: char)
    requires
        is_plain(c),
        is_plain(d),
    ensures
        all_apart(SUBSCRIPTS@, seq!['_', c]),
        all_apart(SUBSCRIPTS@, seq!['_', '{', c, d]),
        !set!['0', '1', '2', '3', 'n'].contains(c) ==> all_apart(SUPERSCRIPTS@, seq!['^', c]),
        all_apart(SUPERSCRIPTS@, seq!['^', '{', c, d]),
{
    reveal_strlit("^{0}");
    reveal_strlit("^{1}");
    reveal_strlit("^{2}");
    reveal_strlit("^{3}");
    reveal_strlit("^{4}");
    reveal_strlit("^{5}");
    reveal_strlit("^{6}");
    reveal_strlit("^{7}");
    reveal_strlit("^{8}");
    reveal_strlit("^{9}");
    reveal_strlit("^{n}");
    reveal_strlit("^{i}");
    reveal_strlit("^0");
    reveal_strlit("^1");
    reveal_strlit("^2");
    reveal_strlit("^3");
    reveal_strlit("^n");
    reveal_strlit("_{0}");
    reveal_strlit("_{1}");
    reveal_strlit("_{2}");
    reveal_strlit("_{3}");
    reveal_strlit("_{4}");
    reveal_strlit("_{5}");
    reveal_strlit("_{6}");
    reveal_strlit("_{7}");
    reveal_strlit("_{8}");
    reveal_strlit("_{9}");
    reveal_strlit("_{i}");
    reveal_strlit("_{n}");
    assert forall|j: int| 0 <= j < 12 implies is_apart(
        (#[trigger] SUBSCRIPTS@[j]).0@,
        seq!['_', c],
    ) && is_apart(SUBSCRIPTS@[j].0@, seq!['_', '{', c, d]) by {
        let p = SUBSCRIPTS@[j].0@;
        assert(p[1] == '{' && p[3] == '}');
        assert(p[1] != seq!['_', c][1]);
        assert(p[3] != seq!['_', '{', c, d][3]);
    }
    assert forall|j: int| 0 <= j < 17 implies is_apart(
        (#[trigger] SUPERSCRIPTS@[j]).0@,
        seq!['^', '{', c, d],
    ) by {
        let p = SUPERSCRIPTS@[j].0@;
        let h = seq!['^', '{', c, d];
        if j < 12 {
            assert(p[3] == '}');
            assert(p[3] != h[3]);
        } else {
            assert(p[1] != '{');
            assert(p[1] != h[1]);
        }
    }
    if !set!['0', '1', '2', '3', 'n'].contains(c) {
        assert forall|j: int| 0 <= j < 17 implies is_apart(
            (#[trigger] SUPERSCRIPTS@[j]).0@,
            seq!['^', c],
        ) by {
            let p = SUPERSCRIPTS@[j].0@;
            assert(p[1] == '{' || set!['0', '1', '2', '3', 'n'].contains(p[1]));
            assert(p[1] != seq!['^', c][1]);
        }
    }
}

/// A fraction whose numerator is a fraction stays while those with a character of their own are
/// replaced, if the inner one has none.
proof fn lemma_nested_fraction_stays(
    a: Seq<char>,
    b: Seq<char>,
    c: Seq<char>,
    s: Seq<char>,
    j: int,
)
    requires
        has_only_commands(a),
        has_only_commands(b),
        has_only_commands(c),
        !is_vulgar(a, b),
        0 <= j <= 4,
    ensures
        rewritten(written_fraction(written_fraction(a, b), c) + s, VULGAR_FRACTIONS@.take(j))
            == written_fraction(written_fraction(a, b), c) + rewritten(
            s,
            VULGAR_FRACTIONS@.take(j),
        ),
    decreases j,
{
    let inner = written_fraction(a, b);
    let h = written_fraction(inner, c);
    if j > 0 {
        lemma_nested_fraction_stays(a, b, c, s, j - 1);
        let rules = VULGAR_FRACTIONS@.take(j);
        assert(rules.drop_last() =~= VULGAR_FRACTIONS@.take(j - 1));
        let t = rewritten(s, VULGAR_FRACTIONS@.take(j - 1));
        let p = VULGAR_FRACTIONS@[j - 1].0@;
        lemma_vulgar_parts(j - 1);
        reveal_strlit("\\frac{");
        reveal_strlit("\\frac");
        let all = h + t;
        let n = inner.len() as int;
        let w = "\\frac"@ + seq!['{'];
        let tail = seq!['}'] + (Seq::<char>::empty() + seq!['{'] + c + seq!['}']) + t;
        assert(all =~= w + (inner + tail));
        assert forall|i: int| 0 <= i < h.len() implies !#[trigger] occurs_at(all, p, i) by {
            if occurs_at(all, p, i) {
                let found = all.subrange(i, i + 11);
                assert(found[0] == all[i]);
                assert(found[6] == all[i + 6]);
                if i < 6 {
                    if i == 0 {
                        assert(all[6] == '\\');
                    }
                } else if i < 6 + n {
                    lemma_fraction_at_start(a, b, tail, i - 6, p);
                    assert((inner + tail).subrange(i - 6, i - 6 + 11) =~= found);
                    assert(occurs_at(inner + tail, p, i - 6));
                } else if i < 6 + n + 2 {
                    assert(all[i] == '}' || all[i] == '{');
                } else {
                    let y = 6 + n + 2;
                    assert(h.subrange(y, y + c.len()) =~= c);
                    assert(h[y + c.len()] == '}');
                    lemma_no_fraction_in_part(h, y, c, i);
                    let m = choose|m: int|
                        0 <= m < 6 && i + m < h.len() && #[trigger] h[i + m] != "\\frac{"@[m];
                    assert(found[m] == h[i + m]);
                }
            }
        }
        lemma_replaced_nowhere_before(h, t, p, VULGAR_FRACTIONS@[j - 1].1@);
    }
}

/// In a fraction that has no character of its own, none that has one starts.
proof fn lemma_fraction_at_start(a: Seq<char>, b: Seq<char>, t: Seq<char>, i: int, p: Seq<char>)
    requires
        has_only_commands(a),
        has_only_commands(b),
        !is_vulgar(a, b),
        0 <= i < written_fraction(a, b).len(),
        p.len() == 11,
        forall|m: int| 0 <= m < 6 ==> #[trigger] p[m] == "\\frac{"@[m],
        p[7] == '}' && p[8] == '{' && p[10] == '}',
        p[6] != '}' && p[9] != '}',
        is_vulgar(seq![p[6]], seq![p[9]]),
    ensures
        !occurs_at(written_fraction(a, b) + t, p, i),
{
    reveal_strlit("\\frac{");
    reveal_strlit("\\frac");
    let h = written_fraction(a, b);
    let all = h + t;
    lemma_no_fraction_inside(a, b);
    if occurs_at(all, p, i) {
        let found = all.subrange(i, i + 11);
        if i > 0 {
            assert(is_no_fraction_at(h, i));
            let m = choose|m: int|
                0 <= m < 6 && i + m < h.len() && #[trigger] h[i + m] != "\\frac{"@[m];
            assert(found[m] == h[i + m]);
        } else {
            assert(found[6] == all[6] && found[7] == all[7] && found[9] == all[9] && found[10]
                == all[10]);
            if a.len() == 0 {
                assert(all[6] == '}');
            } else if a.len() > 1 {
                assert(all[7] == a[1]);
            } else {
                assert(all[6] == a[0]);
                assert(a =~= seq![p[6]]);
                if b.len() == 0 {
                    assert(all[9] == '}');
                } else if b.len() > 1 {
                    assert(all[10] == b[1]);
                } else {
                    assert(all[9] == b[0]);
                    assert(b =~= seq![p[9]]);
                }
            }
        }
    }
}

/// A fraction whose numerator is a fraction is unfolded from the outside.
proof fn lemma_nested_fraction_is_unfolded(
    a: Seq<char>,
    b: Seq<char>,
    c: Seq<char>,
    s: Seq<char>,
)
    requires
        has_only_commands(a),
        has_only_commands(b),
        has_only_commands(c),
    ensures
        fractions_unfolded(written_fraction(written_fraction(a, b), c) + s) == unfolded_fraction(
            unfolded_fraction(a, b),
            c,
        ) + fractions_unfolded(s),
{
    reveal_strlit("\\frac{");
    reveal_strlit("\\frac");
    let open = "\\frac{"@;
    let all = written_fraction(written_fraction(a, b), c) + s;
    let x: int = 12 + a.len() as int;
    let y: int = x + 2 + b.len();
    assert(all.subrange(0, 6) =~= open);
    assert(find_from(all, open, 0) == Some(0int));
    assert forall|i: int| 6 <= i < x implies all[i] != '}' by {
        if i >= 12 {
            assert(all[i] == a[i - 12]);
        } else {
            assert(all[i] == open[i - 6]);
        }
    }
    assert(all[x] == '}');
    lemma_find_brace(all, 6, x);
    assert(all[x + 1] == '{');
    assert forall|i: int| x + 2 <= i < y implies all[i] != '}' by {
        assert(all[i] == b[i - x - 2]);
    }
    assert(all[y] == '}');
    lemma_find_brace(all, x + 2, y);
    assert(first_fraction(all) == Some((0int, x, y)));
    lemma_fraction_shrinks(all);
    let mid = a + seq![')', '/', '('] + b + seq![')'];
    let next = written_fraction(mid, c) + s;
    assert(fraction_unfolded(all, 0, x, y) =~= seq!['('] + next);
    assert(all_plain(seq!['(']));
    lemma_fractions_prefix(seq!['('], next);
    lemma_both_lack(a, seq![')', '/', '('], '{');
    lemma_both_lack(a + seq![')', '/', '('], b, '{');
    lemma_both_lack(a + seq![')', '/', '('] + b, seq![')'], '{');
    lemma_both_lack(a, seq![')', '/', '('], '}');
    lemma_both_lack(a + seq![')', '/', '('], b, '}');
    lemma_both_lack(a + seq![')', '/', '('] + b, seq![')'], '}');
    lemma_fraction_is_unfolded(mid, c, s);
    assert(seq!['('] + (unfolded_fraction(mid, c) + fractions_unfolded(s)) =~= unfolded_fraction(
        unfolded_fraction(a, b),
        c,
    ) + fractions_unfolded(s));
}

/// A fraction whose numerator is a fraction is shown as one whose numerator is shown as that
/// fraction is.
pub proof fn law_nested_fractions_are_shown(
    a: Seq<char>,
    b: Seq<char>,
    c: Seq<char>,
    rest: Seq<char>,
)
    requires
        has_only_commands(a),
        has_only_commands(b),
        has_only_commands(c),
        !is_vulgar(a, b),
    ensures
        ({
            let inner = seq!['('] + math_text(a) + seq![')', '/', '('] + math_text(b) + seq![')'];
            math_text(
                "\\frac{"@ + ("\\frac{"@ + a + "}{"@ + b + "}"@) + "}{"@ + c + "}"@ + rest,
            ) == seq!['('] + inner + seq![')', '/', '('] + math_text(c) + seq![')'] + math_text(
                rest,
            )
        }),
{
    reveal_strlit("\\frac{");
    reveal_strlit("\\frac");
    reveal_strlit("}{");
    reveal_strlit("}");
    let none = Seq::<char>::empty();
    let source = "\\frac{"@ + ("\\frac{"@ + a + "}{"@ + b + "}"@) + "}{"@ + c + "}"@ + rest;
    assert("\\frac{"@ + a + "}{"@ + b + "}"@ =~= written_fraction(a, b));
    assert(source =~= written_fraction(written_fraction(a, b), c) + rest);
    lemma_commands_first(source);
    lemma_commands_first(rest);
    lemma_only_commands(a);
    lemma_only_commands(b);
    lemma_only_commands(c);
    lemma_tables_marked();
    lemma_tables_lack();
    lemma_nested_fraction_stays(a, b, c, rest, 4);
    assert(VULGAR_FRACTIONS@.take(4) =~= VULGAR_FRACTIONS@);
    let s = rewritten(rest, VULGAR_FRACTIONS@);
    lemma_fraction_is_no_command();
    lemma_rewritten_in_nested_fraction(a, b, c, s, GREEK@);
    let x = rewritten(a, GREEK@);
    let y = rewritten(b, GREEK@);
    let z = rewritten(c, GREEK@);
    let s = rewritten(s, GREEK@);
    lemma_rewritten_in_nested_fraction(x, y, z, s, OPERATORS@);
    let x = rewritten(x, OPERATORS@);
    let y = rewritten(y, OPERATORS@);
    let z = rewritten(z, OPERATORS@);
    let s = rewritten(s, OPERATORS@);
    let h = written_fraction(written_fraction(x, y), z);
    lemma_fraction_lacks(x, y, '^');
    lemma_fraction_lacks(x, y, '_');
    lemma_fraction_lacks(written_fraction(x, y), z, '^');
    lemma_fraction_lacks(written_fraction(x, y), z, '_');
    lemma_superscript_table();
    lemma_subscript_table();
    lemma_text_passes(h, s, SUPERSCRIPTS@, '^');
    let s = rewritten(s, SUPERSCRIPTS@);
    lemma_text_passes(h, s, SUBSCRIPTS@, '_');
    let s = rewritten(s, SUBSCRIPTS@);
    lemma_nested_fraction_is_unfolded(x, y, z, s);
    let s = fractions_unfolded(s);
    lemma_laid_out_fraction(unfolded_fraction(x, y), z, s);
    lemma_laid_out_fraction(x, y, none);
    assert(unfolded_fraction(x, y) + none =~= unfolded_fraction(x, y));
    lemma_rewritten_empty(LAYOUT@);
    lemma_filter_plain(none);
    assert(seq!['('] + laid_out(x) + seq![')', '/', '('] + laid_out(y) + seq![')'] + none
        =~= seq!['('] + laid_out(x) + seq![')', '/', '('] + laid_out(y) + seq![')']);
}

/// In nested fractions, the parts are rewritten each on its own.
proof fn lemma_rewritten_in_nested_fraction(
    a: Seq<char>,
    b: Seq<char>,
    c: Seq<char>,
    s: Seq<char>,
    rules: Seq<(&'static str, &'static str)>,
)
    requires
        all_lack(rules, '{'),
        all_lack(rules, '}'),
        all_marked(rules),
        rewritten("\\frac"@, rules) == "\\frac"@,
    ensures
        rewritten(written_fraction(written_fraction(a, b), c) + s, rules) == written_fraction(
            written_fraction(rewritten(a, rules), rewritten(b, rules)),
            rewritten(c, rules),
        ) + rewritten(s, rules),
{
    let none = Seq::<char>::empty();
    lemma_rewritten_in_fraction(written_fraction(a, b), c, s, rules);
    lemma_rewritten_in_fraction(a, b, none, rules);
    lemma_rewritten_empty(rules);
    assert(written_fraction(a, b) + none =~= written_fraction(a, b));
    let made = written_fraction(rewritten(a, rules), rewritten(b, rules));
    assert(made + none =~= made);
}

} // verus!
