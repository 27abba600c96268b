use mdpreview::block::{Block, Inline};
use mdpreview::markdown::{
    blocks_of_tree, collect_inlines, collect_list_items, collect_table, collect_text, parse,
};
use mdpreview::node::{build_tree, Node, NodeKind};
use mdpreview::parser::{classify, document_of_walk, parse_tree, ParsedKind};

fn leaf(kind: NodeKind) -> Node {
    Node { kind, children: Vec::new() }
}

fn text(literal: &str) -> Node {
    leaf(NodeKind::Text { literal: literal.to_string() })
}

fn node(kind: NodeKind, children: Vec<Node>) -> Node {
    Node { kind, children }
}

fn shown(blocks: &[Block]) -> String {
    format!("{:?}", blocks)
}

#[test]
fn headings_have_levels_and_text() {
    let blocks = parse("# One `two`\n\n###### Six");
    assert_eq!(
        shown(&blocks),
        shown(&[
            Block::Heading { level: 1, text: "One two".to_string() },
            Block::Heading { level: 6, text: "Six".to_string() },
        ])
    );
}

#[test]
fn paragraphs_have_inlines() {
    let blocks = parse("a **b** *c* ~~d~~ `e` [f](http://g) $x^2$\nend");
    let expected = vec![
        Inline::Text("a ".to_string()),
        Inline::Bold("b".to_string()),
        Inline::Text(" ".to_string()),
        Inline::Italic("c".to_string()),
        Inline::Text(" ".to_string()),
        Inline::Strikethrough("d".to_string()),
        Inline::Text(" ".to_string()),
        Inline::Code("e".to_string()),
        Inline::Text(" ".to_string()),
        Inline::Link { text: "f".to_string(), url: "http://g".to_string() },
        Inline::Text(" ".to_string()),
        Inline::Math { source: "x^2".to_string() },
        Inline::SoftBreak,
        Inline::Text("end".to_string()),
    ];
    assert_eq!(shown(&blocks), shown(&[Block::Paragraph { inlines: expected }]));
}

#[test]
fn only_the_innermost_emphasis_counts() {
    let blocks = parse("**a *b* c**");
    let expected = vec![
        Inline::Bold("a ".to_string()),
        Inline::Italic("b".to_string()),
        Inline::Bold(" c".to_string()),
    ];
    assert_eq!(shown(&blocks), shown(&[Block::Paragraph { inlines: expected }]));
}

#[test]
fn hard_breaks_are_kept_apart_from_soft_ones() {
    let blocks = parse("a  \nb\nc");
    let expected = vec![
        Inline::Text("a".to_string()),
        Inline::LineBreak,
        Inline::Text("b".to_string()),
        Inline::SoftBreak,
        Inline::Text("c".to_string()),
    ];
    assert_eq!(shown(&blocks), shown(&[Block::Paragraph { inlines: expected }]));
}

#[test]
fn code_blocks_have_a_language_or_none() {
    let blocks = parse("```rust\nfn main() {}\n```\n\n```\nplain\n```\n\n    indented\n");
    assert_eq!(
        shown(&blocks),
        shown(&[
            Block::CodeBlock { lang: Some("rust".to_string()), code: "fn main() {}\n".to_string() },
            Block::CodeBlock { lang: None, code: "plain\n".to_string() },
            Block::CodeBlock { lang: None, code: "indented\n".to_string() },
        ])
    );
}

#[test]
fn mermaid_code_becomes_a_pending_diagram() {
    let blocks = parse("```mermaid\ngraph TD\n```\n\n```mermaid x\ny\n```");
    assert_eq!(
        shown(&blocks),
        shown(&[
            Block::Mermaid { source: "graph TD\n".to_string(), image: None },
            Block::CodeBlock { lang: Some("mermaid x".to_string()), code: "y\n".to_string() },
        ])
    );
}

#[test]
fn lists_have_trimmed_items_and_drop_tasks() {
    let blocks = parse("- one\n- two *three*\n\n1. x\n2. y\n");
    assert_eq!(
        shown(&blocks),
        shown(&[
            Block::List { items: vec!["one".to_string(), "two three".to_string()] },
            Block::List { items: vec!["x".to_string(), "y".to_string()] },
        ])
    );
    let tasks = parse("- [ ] open\n- [x] done\n- plain\n");
    assert_eq!(shown(&tasks), shown(&[Block::List { items: vec!["plain".to_string()] }]));
}

#[test]
fn nested_items_are_part_of_the_outer_one() {
    let blocks = parse("- a\n  - b\n  - c\n");
    assert_eq!(shown(&blocks), shown(&[Block::List { items: vec!["abc".to_string()] }]));
}

#[test]
fn quotations_rules_and_formulas_are_blocks() {
    let blocks = parse("> wise\n> words\n\n---\n");
    assert_eq!(
        shown(&blocks),
        shown(&[Block::BlockQuote { text: "wise words".to_string() }, Block::ThematicBreak])
    );
}

#[test]
fn tables_have_headers_and_rows() {
    let blocks = parse("| a | b |\n|---|---|\n| 1 | **2** |\n| 3 | |\n");
    let rows = vec![
        vec!["1".to_string(), "2".to_string()],
        vec!["3".to_string(), "".to_string()],
    ];
    assert_eq!(
        shown(&blocks),
        shown(&[Block::Table { headers: vec!["a".to_string(), "b".to_string()], rows }])
    );
}

#[test]
fn an_empty_document_has_no_blocks() {
    assert_eq!(parse("").len(), 0);
    assert_eq!(parse("\n\n").len(), 0);
}

#[test]
fn trees_are_rebuilt_from_walks() {
    let tree = build_tree(vec![
        Some(NodeKind::Document),
        Some(NodeKind::Paragraph),
        Some(NodeKind::Text { literal: "a".to_string() }),
        None,
        Some(NodeKind::SoftBreak),
        None,
        None,
        None,
    ])
    .unwrap();
    assert!(matches!(tree.kind, NodeKind::Document));
    assert_eq!(tree.children.len(), 1);
    assert_eq!(tree.children[0].children.len(), 2);
    assert_eq!(collect_text(&tree), "a ");
}

#[test]
fn other_sequences_are_no_walks() {
    assert!(build_tree(Vec::new()).is_none());
    assert!(build_tree(vec![None]).is_none());
    assert!(build_tree(vec![Some(NodeKind::Document)]).is_none());
    assert!(build_tree(vec![Some(NodeKind::Document), None, None]).is_none());
    assert!(build_tree(vec![Some(NodeKind::List), None, Some(NodeKind::List), None]).is_none());
    assert!(document_of_walk(vec![Some(ParsedKind::Heading(1))]).is_none());
}

#[test]
fn parsed_nodes_are_classified() {
    assert!(matches!(classify(ParsedKind::Plain("document")), NodeKind::Document));
    assert!(matches!(classify(ParsedKind::Plain("item")), NodeKind::Item));
    assert!(matches!(classify(ParsedKind::Plain("taskitem")), NodeKind::Other));
    assert!(matches!(classify(ParsedKind::Heading(3)), NodeKind::Heading { level: 3 }));
    assert!(matches!(classify(ParsedKind::TableRow(true)), NodeKind::TableRow { header: true }));
}

#[test]
fn the_parser_knows_every_kind_of_node() {
    let root = parse_tree("> **a** *b* ~~c~~\n\n1. x\n\n---\n\n|h|\n|-|\n|d|\n");
    let kinds: Vec<bool> = root
        .children
        .iter()
        .map(|child| !matches!(child.kind, NodeKind::Other))
        .collect();
    assert_eq!(kinds, vec![true, true, true, true]);
    assert!(matches!(root.kind, NodeKind::Document));
    assert!(matches!(root.children[0].kind, NodeKind::BlockQuote));
    let quoted = &root.children[0].children[0];
    assert!(matches!(quoted.kind, NodeKind::Paragraph));
    assert!(matches!(quoted.children[0].kind, NodeKind::Strong));
    assert!(matches!(quoted.children[2].kind, NodeKind::Emph));
    assert!(matches!(quoted.children[4].kind, NodeKind::Strikethrough));
    assert!(matches!(root.children[1].kind, NodeKind::List));
    assert!(matches!(root.children[1].children[0].kind, NodeKind::Item));
    assert!(matches!(root.children[2].kind, NodeKind::ThematicBreak));
    assert!(matches!(root.children[3].kind, NodeKind::Table));
}

#[test]
fn a_formula_of_its_own_is_a_block_and_one_in_a_paragraph_is_not() {
    let formula = NodeKind::Math { literal: "x".to_string(), display: true };
    let blocks = blocks_of_tree(&node(NodeKind::Document, vec![leaf(formula)]));
    assert_eq!(
        shown(&blocks),
        shown(&[Block::Math { source: "x".to_string(), display: true }])
    );
    let blocks = parse("$$x$$");
    let inlines = vec![Inline::Math { source: "x".to_string() }];
    assert_eq!(shown(&blocks), shown(&[Block::Paragraph { inlines }]));
}

#[test]
fn unknown_nodes_hand_on_their_children() {
    let inner = node(NodeKind::Other, vec![leaf(NodeKind::ThematicBreak)]);
    let blocks = blocks_of_tree(&node(NodeKind::Document, vec![inner]));
    assert_eq!(shown(&blocks), shown(&[Block::ThematicBreak]));
    let paragraph = node(
        NodeKind::Paragraph,
        vec![node(NodeKind::Strong, vec![node(NodeKind::Other, vec![text("a")])])],
    );
    assert_eq!(
        format!("{:?}", collect_inlines(&paragraph)),
        format!("{:?}", vec![Inline::Bold("a".to_string())])
    );
}

#[test]
fn inlines_keep_the_text_of_a_paragraph() {
    let root = parse_tree("a **b *c* ~~d~~** `e` [f *g*](h)\ni");
    let paragraph = &root.children[0];
    let mut kept = String::new();
    for inline in collect_inlines(paragraph) {
        match inline {
            Inline::Text(t)
            | Inline::Bold(t)
            | Inline::Italic(t)
            | Inline::Strikethrough(t)
            | Inline::Code(t) => kept.push_str(&t),
            Inline::Link { text, .. } => kept.push_str(&text),
            Inline::Math { .. } => {}
            Inline::SoftBreak | Inline::LineBreak => kept.push(' '),
        }
    }
    assert_eq!(kept, collect_text(paragraph));
    assert_eq!(kept, "a b c d e f g i");
}

#[test]
fn only_items_of_a_list_count() {
    let list = node(
        NodeKind::List,
        vec![
            node(NodeKind::Item, vec![text("  a ")]),
            node(NodeKind::Other, vec![text("b")]),
            node(NodeKind::Item, vec![text("c")]),
        ],
    );
    assert_eq!(collect_list_items(&list), vec!["a".to_string(), "c".to_string()]);
}

#[test]
fn the_first_row_and_header_rows_set_the_headers() {
    let row = |header: bool, cell: &str| {
        node(NodeKind::TableRow { header }, vec![node(NodeKind::Other, vec![text(cell)])])
    };
    let table = node(
        NodeKind::Table,
        vec![row(false, "a"), row(false, "b"), row(true, "c"), text("x"), row(false, "d")],
    );
    let (headers, rows) = collect_table(&table);
    assert_eq!(headers, vec!["c".to_string()]);
    assert_eq!(rows, vec![vec!["b".to_string()], vec!["d".to_string()]]);
}

#[test]
fn blocks_come_in_the_order_of_the_document() {
    let first = "# a\n\ntext\n\n";
    let second = "---\n\n> b\n";
    let mut blocks = parse(first);
    blocks.extend(parse(second));
    assert_eq!(shown(&parse(&format!("{}{}", first, second))), shown(&blocks));
}
