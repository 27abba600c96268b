use mdpreview::math::unicode_math;
use mdpreview::render::unicode_math_pub;

#[test]
fn symbols_take_the_place_of_commands() {
    assert_eq!(unicode_math_pub("\\alpha + \\beta = \\Omega"), "α + β = Ω");
    assert_eq!(unicode_math_pub("a \\times b \\leq c"), "a × b ≤ c");
    assert_eq!(unicode_math_pub("\\sin x \\to \\infty"), "sin x → ∞");
    assert_eq!(unicode_math("x \\in A \\cup B"), "x ∈ A ∪ B");
}

#[test]
fn earlier_commands_win_over_longer_ones() {
    assert_eq!(unicode_math("\\zeta\\eta\\beta"), "ζηβ");
    assert_eq!(unicode_math("a \\cdots b"), "a ·s b");
    assert_eq!(unicode_math("\\subseteq"), "⊂eq");
    assert_eq!(unicode_math("\\notin"), "∉");
    assert_eq!(unicode_math("\\epsilon"), "ε");
}

#[test]
fn powers_and_indices_are_raised_and_lowered() {
    assert_eq!(unicode_math("x^2 + y^{3} = z^n"), "x² + y³ = zⁿ");
    assert_eq!(unicode_math("a_{1}, a_{n}, a_{i}"), "a₁, aₙ, aᵢ");
    assert_eq!(unicode_math("x^{10} + x^4"), "x^10 + x^4");
    assert_eq!(unicode_math("a_1"), "a_1");
}

#[test]
fn fractions_are_unfolded() {
    assert_eq!(unicode_math("\\frac{1}{2}"), "½");
    assert_eq!(unicode_math("\\frac{3}{4} + \\frac{1}{3} + \\frac{1}{4}"), "¾ + ⅓ + ¼");
    assert_eq!(unicode_math("\\frac{a}{b}"), "(a)/(b)");
    assert_eq!(unicode_math("x = \\frac{a+b}{c} + \\frac{d}{e}"), "x = (a+b)/(c) + (d)/(e)");
    assert_eq!(unicode_math("\\frac{a}"), "\\fraca");
    assert_eq!(unicode_math("\\frac{a}b"), "\\fracab");
    assert_eq!(unicode_math("\\frac{a"), "\\fraca");
    assert_eq!(unicode_math("\\frac{a}{b"), "\\fracab");
    assert_eq!(unicode_math("\\frac{\\frac{a}{b}}{c}"), "((a)/(b))/(c)");
}

#[test]
fn layout_commands_vanish() {
    assert_eq!(unicode_math("\\left( x \\right)"), "( x )");
    assert_eq!(unicode_math("a\\,b\\;c\\quad d"), "a b c   d");
    assert_eq!(unicode_math("\\text{if } \\mathbf{v}"), "if  v");
    assert_eq!(unicode_math("\\sqrt{x}"), "√x");
}

#[test]
fn no_brace_is_left() {
    for source in ["{", "}", "{{}}", "\\frac{{a}}{b}", "x^{12}", "\\foo{a}{b}"] {
        let text = unicode_math(source);
        assert!(!text.contains('{') && !text.contains('}'), "{}", text);
    }
}

#[test]
fn a_plain_start_stays() {
    for rest in ["", "\\alpha", "\\frac{a}{b}", "^2", "\\frac{a", "{x}_{1}"] {
        let plain = "größe 3 = ";
        let source = format!("{}{}", plain, rest);
        assert_eq!(unicode_math(&source), format!("{}{}", plain, unicode_math(rest)));
    }
}

#[test]
fn plain_text_stays() {
    for source in ["", "a + b = c", "größer als 3", "f(x) = y"] {
        assert_eq!(unicode_math(source), source);
    }
}
