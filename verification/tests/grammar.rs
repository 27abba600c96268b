use mdpreview::catmode::render_code_block;
use mdpreview::grammar::highlightable;
use mdpreview::highlight::{highlight_block, Color};

fn is_colored(code: &str, lang: &str) -> bool {
    highlight_block(Some(lang), code, true).is_some()
}

#[test]
fn ordinary_code_is_highlighted() {
    let ruby = "def f(x)\n  puts \"a #{x}\" << 'b'\n  y = <<~EOS\n    text\n  EOS\nend\n";
    let python = "def f(x):\n\tif x:\n\t\treturn 'a'\n    # done\n";
    let yaml = "a:\n  - b: 1\n    c: |\n      text\n  - d\n";
    for (code, lang) in [(ruby, "ruby"), (ruby, "rb"), (python, "python"), (python, "py")] {
        assert!(highlightable(code, lang));
        assert!(is_colored(code, lang));
    }
    for lang in ["yaml", "yml"] {
        assert!(highlightable(yaml, lang));
        assert!(is_colored(yaml, lang));
    }
}

#[test]
fn ruby_without_heredocs_may_be_long() {
    let code = "puts \"a\" + 'b' << c\n".repeat(500);
    assert!(highlightable(&code, "ruby"));
    assert!(is_colored(&code, "ruby"));
}

#[test]
fn long_heredoc_words_are_left_out() {
    for open in ["<<", "<<-", "<<~"] {
        let short = format!("x = {}{}\n", open, "A".repeat(255));
        let long = format!("x = {}{}\n", open, "A".repeat(256));
        assert!(highlightable(&short, "ruby"));
        assert!(is_colored(&short, "ruby"));
        assert!(!highlightable(&long, "ruby"));
        assert!(!highlightable(&long, "rb"));
        assert!(!is_colored(&long, "ruby"));
        assert!(highlightable(&long, "bash"));
    }
}

#[test]
fn long_quoted_words_are_left_out() {
    let short = format!("buf <<\"{}\"\n", "a b".repeat(85));
    let long = format!("buf <<\"{}\"\n", "a b".repeat(86));
    assert!(highlightable(&short, "ruby"));
    assert!(is_colored(&short, "ruby"));
    assert!(!highlightable(&long, "ruby"));
    assert!(!highlightable(&format!("buf <<'{}", "x".repeat(300)), "ruby"));
    assert!(highlightable(&format!("buf << '{}'", "x".repeat(300)), "ruby"));
}

#[test]
fn ruby_with_too_much_to_keep_is_left_out() {
    // Eight bytes for the heredoc and five for each quote.
    let fits = format!("x = <<HTML\n{}", "'".repeat(202));
    let overflows = format!("x = <<HTML\n{}", "'".repeat(203));
    assert!(highlightable(&fits, "ruby"));
    assert!(is_colored(&fits, "ruby"));
    assert!(!highlightable(&overflows, "ruby"));
    let words = "f(<<AB, ".repeat(170);
    assert!(highlightable(&words, "ruby"));
    assert!(is_colored(&words, "ruby"));
    assert!(!highlightable(&"f(<<AB, ".repeat(171), "ruby"));
}

#[test]
fn ruby_that_cannot_overrun_the_buffer_is_highlighted() {
    // Bytes for words of one letter are a multiple of five, those for three letters leave two.
    let quotes = "puts 'a' + 'b'\n".repeat(100);
    for code in [
        format!("x = <<A\nt\nA\n{quotes}"),
        "f(<<A, ".repeat(400),
        format!("x = <<EOS\nt\nEOS\n{quotes}"),
        format!("{}{quotes}", "x = <<EOS\nt\nEOS\n".repeat(3)),
        format!("{quotes}# größe\n<<EOS\n{}", "'".repeat(300)),
    ] {
        assert!(highlightable(&code, "ruby"));
        assert!(is_colored(&code, "ruby"));
    }
    let four = format!("{}{quotes}", "x = <<EOS\nt\nEOS\n".repeat(4));
    assert!(!highlightable(&four, "ruby"));
    // The word may end before or behind the letter beyond ASCII.
    assert!(!highlightable(&format!("x = <<Aé\n{quotes}"), "ruby"));
}

#[test]
fn deep_python_is_left_out() {
    let nested = |depth: usize| {
        let mut code = String::new();
        for n in 0..depth {
            code.push_str(&" ".repeat(n));
            code.push_str("if x:\n");
        }
        code.push_str(&" ".repeat(depth));
        code.push_str("y = f'''a");
        code
    };
    assert!(highlightable(&nested(100), "python"));
    assert!(highlightable(&nested(383), "python"));
    assert!(is_colored(&nested(383), "python"));
    assert!(!highlightable(&nested(384), "python"));
    assert!(!highlightable(&nested(511), "py"));
    assert!(!is_colored(&nested(511), "py"));
    let long = "x\n".repeat(384);
    assert!(highlightable(&long, "python"));
    assert!(is_colored(&long, "python"));
    assert!(highlightable(&format!("{}y", " ".repeat(384)), "python"));
    assert!(is_colored(&format!("{}y", " ".repeat(384)), "python"));
    assert!(!highlightable(&format!("{}{}y", long, "\t".repeat(48)), "python"));
    assert!(highlightable(&format!("{}{}y", long, "\t".repeat(47)), "python"));
    assert!(!highlightable(&format!("x\n{}y", " \\\n".repeat(384)), "python"));
    assert!(!highlightable(&format!("x\r\n{}y", " \\\r\n".repeat(384)), "python"));
    for lines in [" \n", "        \r\n", "    # note\n", " \u{c}\n"] {
        let code = format!("{}y", lines.repeat(500));
        assert!(highlightable(&code, "python"));
        assert!(is_colored(&code, "python"));
    }
}

#[test]
fn deep_yaml_is_left_out() {
    let fits = "- ".repeat(253);
    let overflows = "- ".repeat(254);
    assert!(highlightable(&fits, "yaml"));
    assert!(is_colored(&fits, "yaml"));
    assert!(!highlightable(&overflows, "yaml"));
    assert!(!highlightable(&overflows, "yml"));
    assert!(!is_colored(&overflows, "yaml"));
    assert!(highlightable(&"a-b:c ".repeat(300), "yaml"));
    assert!(!highlightable(&"? a\n: b\n".repeat(127), "yaml"));
    assert!(!highlightable(&"k: |+\n t\n".repeat(127), "yaml"));
    assert!(!highlightable(&"k: >2\n t\n".repeat(127), "yaml"));
}

#[test]
fn known_languages_are_highlighted() {
    let known = [
        "rust", "rs", "python", "py", "javascript", "js", "jsx", "go", "golang", "bash", "sh",
        "shell", "zsh", "json", "jsonc", "toml", "c", "h", "cpp", "c++", "cxx", "cc", "hpp",
        "typescript", "ts", "tsx", "java", "ruby", "rb", "css", "html", "htm", "yaml", "yml",
    ];
    for lang in known {
        for code in ["", "x", "a = 1 # b\n\n", "<<\"'{[(é\u{0}…", "\t\r\n - x: |\n"] {
            assert!(is_colored(code, lang));
        }
    }
    for lang in ["", "text", "Rust", "rust ", "mermaid", "sql", "javascriptreact", "C"] {
        assert!(!is_colored("x = 1", lang));
    }
}

#[test]
fn code_is_in_the_colors_of_the_theme() {
    let code = "// a\nfn f(x: u8) -> String {\n    g!(\"b\", 1, self.c)\n}\n";
    let dark: Vec<Color> = vec![
        Color::White,
        Color::Indexed(245),
        Color::Rgb(198, 120, 221),
        Color::Rgb(152, 195, 121),
        Color::Rgb(209, 154, 102),
        Color::Rgb(97, 175, 239),
        Color::Rgb(86, 182, 194),
        Color::Rgb(229, 192, 123),
        Color::Rgb(224, 108, 117),
    ];
    let light: Vec<Color> = vec![
        Color::Rgb(15, 23, 42),
        Color::Rgb(100, 116, 139),
        Color::Rgb(166, 38, 164),
        Color::Rgb(80, 161, 79),
        Color::Rgb(152, 104, 1),
        Color::Rgb(64, 120, 242),
        Color::Rgb(1, 132, 188),
    ];
    for (is_dark, colors) in [(true, dark), (false, light)] {
        let lines = highlight_block(Some("rust"), code, is_dark).unwrap();
        for span in lines.iter().flatten() {
            assert!(colors.contains(&span.fg.unwrap()));
            assert!(span.modifiers == 0 || (span.modifiers == 4 && span.fg == Some(colors[1])));
        }
        for color in &colors {
            assert!(lines.iter().flatten().any(|span| span.fg == Some(*color)), "{color:?}");
        }
        assert_eq!(lines[0][0].modifiers, 4);
    }
}

#[test]
fn the_language_decides_the_colors() {
    let keyword = Some(Color::Rgb(198, 120, 221));
    let first = |lang: &str| highlight_block(Some(lang), "return x", true).unwrap()[0][0].fg;
    assert_eq!(first("c"), keyword);
    assert_ne!(first("toml"), keyword);
}

#[test]
fn code_that_is_left_out_is_plain() {
    let code = format!("x = <<{}\n", "A".repeat(300));
    let mut plain = String::new();
    render_code_block(&mut plain, Some("klingon"), &code, 80);
    let mut ruby = String::new();
    render_code_block(&mut ruby, Some("ruby"), &code, 80);
    assert_eq!(ruby, plain.replace("klingon", "ruby"));
}

#[test]
fn wide_characters_behind_braces_are_left_out_of_bash() {
    for lang in ["bash", "sh", "shell", "zsh"] {
        for code in ["echo {1..3}", "echo {é}", "echo … ${x} {a,b}", "echo {1..3} …", "{"] {
            assert!(highlightable(code, lang));
            assert!(is_colored(code, lang));
        }
        for code in ["echo {…}", "echo {12…", "echo {1..2…}", "a { b {\u{100}"] {
            assert!(!highlightable(code, lang));
            assert!(!is_colored(code, lang));
        }
    }
    assert!(highlightable("echo {…}", "rust"));
}
