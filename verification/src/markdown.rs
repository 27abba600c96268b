//! From a document tree to the blocks that are shown.
use crate::block::{blocks_wf, Block, BlockV, Inline, InlineV};
use crate::node::{
    lemma_children_view, lemma_walk_all_push, walk, walk_all, Node, NodeKind, NodeKindV, NodeV,
};
use crate::parser::{document, parse_tree};
use crate::text::{
    all_white, is_tight, law_trimmed_drops_white_space, law_trimmed_is_trimmed, lemma_concat_assoc,
    lemma_concat_empty, owned, same_text, trim, trimmed,
};
use vstd::prelude::*;

verus! {

/// What a node itself contributes to the text of its part of the document.
pub open spec fn own_text(kind: NodeKindV) -> Seq<char> {
    match kind {
        NodeKindV::Text { literal } => literal,
        NodeKindV::Code { literal } => literal,
        NodeKindV::SoftBreak => seq![' '],
        NodeKindV::LineBreak => seq![' '],
        _ => Seq::empty(),
    }
}

/// The text of a node: its own, then that of its children.
pub open spec fn text_of(node: NodeV) -> Seq<char>
    decreases node,
{
    own_text(node.kind) + text_of_all(node.children)
}

/// The texts of several nodes, one after the other.
pub open spec fn text_of_all(nodes: Seq<NodeV>) -> Seq<char>
    decreases nodes,
{
    if nodes.len() == 0 {
        Seq::empty()
    } else {
        text_of_all(nodes.subrange(0, nodes.len() - 1)) + text_of(nodes[nodes.len() - 1])
    }
}

/// The emphasis that surrounds a piece of text; only the innermost one counts.
#[derive(Clone, Copy)]
pub enum InlineCtx {
    Normal,
    Bold,
    Italic,
    Strikethrough,
}

/// A piece of text in its emphasis.
pub open spec fn emphasized(ctx: InlineCtx, text: Seq<char>) -> InlineV {
    match ctx {
        InlineCtx::Normal => InlineV::Text(text),
        InlineCtx::Bold => InlineV::Bold(text),
        InlineCtx::Italic => InlineV::Italic(text),
        InlineCtx::Strikethrough => InlineV::Strikethrough(text),
    }
}

/// The inlines of a node that stands in a paragraph. A node of no kind of its own hands the
/// emphasis around it down to its children.
pub open spec fn inlines_of(node: NodeV, ctx: InlineCtx) -> Seq<InlineV>
    decreases node,
{
    match node.kind {
        NodeKindV::Text { literal } => seq![emphasized(ctx, literal)],
        NodeKindV::Code { literal } => seq![InlineV::Code(literal)],
        NodeKindV::Strong => inlines_of_all(node.children, InlineCtx::Bold),
        NodeKindV::Emph => inlines_of_all(node.children, InlineCtx::Italic),
        NodeKindV::Strikethrough => inlines_of_all(node.children, InlineCtx::Strikethrough),
        NodeKindV::Link { url } => seq![InlineV::Link { text: text_of(node), url }],
        NodeKindV::Math { literal, display: _ } => seq![InlineV::Math { source: literal }],
        NodeKindV::SoftBreak => seq![InlineV::SoftBreak],
        NodeKindV::LineBreak => seq![InlineV::LineBreak],
        _ => inlines_of_all(node.children, ctx),
    }
}

/// The inlines of several nodes, one after the other.
pub open spec fn inlines_of_all(nodes: Seq<NodeV>, ctx: InlineCtx) -> Seq<InlineV>
    decreases nodes,
{
    if nodes.len() == 0 {
        Seq::empty()
    } else {
        inlines_of_all(nodes.subrange(0, nodes.len() - 1), ctx) + inlines_of(
            nodes[nodes.len() - 1],
            ctx,
        )
    }
}

/// The trimmed texts of the items among the nodes.
pub open spec fn items_of(nodes: Seq<NodeV>) -> Seq<Seq<char>>
    decreases nodes.len(),
{
    if nodes.len() == 0 {
        Seq::empty()
    } else if nodes.last().kind is Item {
        items_of(nodes.drop_last()).push(trimmed(text_of(nodes.last())))
    } else {
        items_of(nodes.drop_last())
    }
}

/// The trimmed texts of a table row's cells.
pub open spec fn cells_of(row: NodeV) -> Seq<Seq<char>> {
    row.children.map_values(|cell: NodeV| trimmed(text_of(cell)))
}

/// Whether there is a table row among the nodes.
pub open spec fn has_row(nodes: Seq<NodeV>) -> bool {
    exists|i: int| 0 <= i < nodes.len() && #[trigger] nodes[i].kind is TableRow
}

/// A table's headers and rows, by the nodes of its rows: the first row and every header row set
/// the headers, the last of them for good; the other rows are the rows.
pub open spec fn table_of(nodes: Seq<NodeV>) -> (Seq<Seq<char>>, Seq<Seq<Seq<char>>>)
    decreases nodes.len(),
{
    if nodes.len() == 0 {
        (Seq::empty(), Seq::empty())
    } else {
        let (headers, rows) = table_of(nodes.drop_last());
        match nodes.last().kind {
            NodeKindV::TableRow { header } => if header || !has_row(nodes.drop_last()) {
                (cells_of(nodes.last()), rows)
            } else {
                (headers, rows.push(cells_of(nodes.last())))
            },
            _ => (headers, rows),
        }
    }
}

/// A code block: a diagram if its language is `mermaid`, and without a language if the info
/// string is blank.
pub open spec fn code_block_of(info: Seq<char>, literal: Seq<char>) -> BlockV {
    let lang = trimmed(info);
    if lang == "mermaid"@ {
        BlockV::Mermaid { source: literal, image: None }
    } else if lang.len() == 0 {
        BlockV::CodeBlock { lang: None, code: literal }
    } else {
        BlockV::CodeBlock { lang: Some(lang), code: literal }
    }
}

/// The blocks of a node. A node of no kind of its own contributes the blocks of its children.
pub open spec fn blocks_of(node: NodeV) -> Seq<BlockV>
    decreases node,
{
    match node.kind {
        NodeKindV::Heading { level } => seq![BlockV::Heading { level, text: text_of(node) }],
        NodeKindV::Paragraph => seq![
            BlockV::Paragraph { inlines: inlines_of_all(node.children, InlineCtx::Normal) },
        ],
        NodeKindV::CodeBlock { info, literal } => seq![code_block_of(info, literal)],
        NodeKindV::List => seq![BlockV::List { items: items_of(node.children) }],
        NodeKindV::BlockQuote => seq![BlockV::BlockQuote { text: text_of(node) }],
        NodeKindV::ThematicBreak => seq![BlockV::ThematicBreak],
        NodeKindV::Table => {
            let (headers, rows) = table_of(node.children);
            seq![BlockV::Table { headers, rows }]
        },
        NodeKindV::Math { literal, display } => seq![BlockV::Math { source: literal, display }],
        _ => blocks_of_all(node.children),
    }
}

/// The blocks of several nodes, one after the other.
pub open spec fn blocks_of_all(nodes: Seq<NodeV>) -> Seq<BlockV>
    decreases nodes,
{
    if nodes.len() == 0 {
        Seq::empty()
    } else {
        blocks_of_all(nodes.subrange(0, nodes.len() - 1)) + blocks_of(nodes[nodes.len() - 1])
    }
}

/// Appends the text of a node.
fn collect_text_inner(node: &Node, out: &mut String)
    ensures
        final(out)@ == old(out)@ + text_of(node.deep_view()),
    decreases node,
{
    broadcast use {lemma_children_view, lemma_concat_assoc, lemma_concat_empty};

    match &node.kind {
        NodeKind::Text { literal } => out.append(literal.as_str()),
        NodeKind::Code { literal } => out.append(literal.as_str()),
        NodeKind::SoftBreak => out.push(' '),
        NodeKind::LineBreak => out.push(' '),
        _ => {},
    }
    let ghost base = old(out)@ + own_text(node.kind.deep_view());
    let ghost children = node.children.deep_view();
    assert(out@ =~= base);
    assert(out@ =~= base + text_of_all(children.take(0)));
    let mut i: usize = 0;
    while i < node.children.len()
        invariant
            i <= node.children@.len(),
            children == node.children.deep_view(),
            out@ == base + text_of_all(children.take(i as int)),
        decreases node.children@.len() - i,
    {
        broadcast use lemma_concat_assoc;

        collect_text_inner(&node.children[i], out);
        proof {
            let next = children.take(i + 1);
            assert(next.subrange(0, next.len() - 1) =~= children.take(i as int));
            assert(next[next.len() - 1] == children[i as int]);
        }
        i += 1;
    }
    assert(children.take(children.len() as int) =~= children);
}

/// The text of a node.
pub fn collect_text(node: &Node) -> (text: String)
    ensures
        text@ == text_of(node.deep_view()),
{
    let mut text = String::new();
    collect_text_inner(node, &mut text);
    assert(text@ =~= text_of(node.deep_view()));
    text
}

/// Appends the inlines of a node's children.
fn collect_inlines_inner(node: &Node, inlines: &mut Vec<Inline>, ctx: InlineCtx)
    ensures
        final(inlines).deep_view() == old(inlines).deep_view() + inlines_of_all(
            node.deep_view().children,
            ctx,
        ),
    decreases node,
{
    broadcast use {lemma_children_view, lemma_concat_assoc, lemma_concat_empty};

    let ghost base = old(inlines).deep_view();
    let ghost children = node.children.deep_view();
    assert(children.take(0) =~= Seq::empty());
    let mut i: usize = 0;
    while i < node.children.len()
        invariant
            i <= node.children@.len(),
            children == node.children.deep_view(),
            inlines.deep_view() == base + inlines_of_all(children.take(i as int), ctx),
        decreases node.children@.len() - i,
    {
        broadcast use {lemma_children_view, lemma_concat_assoc};

        let child = &node.children[i];
        let ghost before = inlines.deep_view();
        match &child.kind {
            NodeKind::Text { literal } => {
                let t = owned(literal.as_str());
                match ctx {
                    InlineCtx::Normal => inlines.push(Inline::Text(t)),
                    InlineCtx::Bold => inlines.push(Inline::Bold(t)),
                    InlineCtx::Italic => inlines.push(Inline::Italic(t)),
                    InlineCtx::Strikethrough => inlines.push(Inline::Strikethrough(t)),
                }
            },
            NodeKind::Code { literal } => {
                inlines.push(Inline::Code(owned(literal.as_str())));
            },
            NodeKind::Strong => {
                collect_inlines_inner(child, inlines, InlineCtx::Bold);
            },
            NodeKind::Emph => {
                collect_inlines_inner(child, inlines, InlineCtx::Italic);
            },
            NodeKind::Strikethrough => {
                collect_inlines_inner(child, inlines, InlineCtx::Strikethrough);
            },
            NodeKind::Link { url } => {
                let text = collect_text(child);
                inlines.push(Inline::Link { text, url: owned(url.as_str()) });
            },
            NodeKind::Math { literal, display: _ } => {
                inlines.push(Inline::Math { source: owned(literal.as_str()) });
            },
            NodeKind::SoftBreak => {
                inlines.push(Inline::SoftBreak);
            },
            NodeKind::LineBreak => {
                inlines.push(Inline::LineBreak);
            },
            _ => {
                collect_inlines_inner(child, inlines, ctx);
            },
        }
        proof {
            assert(inlines.deep_view() =~= before + inlines_of(children[i as int], ctx));
            let next = children.take(i + 1);
            assert(next.subrange(0, next.len() - 1) =~= children.take(i as int));
            assert(next[next.len() - 1] == children[i as int]);
        }
        i += 1;
    }
    assert(children.take(children.len() as int) =~= children);
}

/// The inlines of a paragraph.
pub fn collect_inlines(node: &Node) -> (inlines: Vec<Inline>)
    ensures
        inlines.deep_view() == inlines_of_all(node.deep_view().children, InlineCtx::Normal),
{
    let mut inlines: Vec<Inline> = Vec::new();
    collect_inlines_inner(node, &mut inlines, InlineCtx::Normal);
    assert(inlines.deep_view() =~= inlines_of_all(node.deep_view().children, InlineCtx::Normal));
    inlines
}

/// The trimmed texts of a list's items.
pub fn collect_list_items(node: &Node) -> (items: Vec<String>)
    ensures
        items.deep_view() == items_of(node.deep_view().children),
{
    broadcast use lemma_children_view;

    let ghost children = node.children.deep_view();
    let mut items: Vec<String> = Vec::new();
    assert(items.deep_view() =~= items_of(children.take(0)));
    let mut i: usize = 0;
    while i < node.children.len()
        invariant
            i <= node.children@.len(),
            children == node.children.deep_view(),
            items.deep_view() == items_of(children.take(i as int)),
        decreases node.children@.len() - i,
    {
        let child = &node.children[i];
        let ghost before = items.deep_view();
        assert(children.take(i + 1).drop_last() =~= children.take(i as int));
        if let NodeKind::Item = &child.kind {
            items.push(trim(collect_text(child).as_str()));
            assert(items.deep_view() =~= before.push(trimmed(text_of(children[i as int]))));
        }
        i += 1;
    }
    assert(children.take(children.len() as int) =~= children);
    items
}

/// The trimmed texts of a table row's cells.
fn collect_cells(row: &Node) -> (cells: Vec<String>)
    ensures
        cells.deep_view() == cells_of(row.deep_view()),
{
    broadcast use lemma_children_view;

    let ghost expected = cells_of(row.deep_view());
    let mut cells: Vec<String> = Vec::new();
    let mut i: usize = 0;
    while i < row.children.len()
        invariant
            i <= row.children@.len(),
            expected == cells_of(row.deep_view()),
            row.deep_view().children == row.children.deep_view(),
            cells.deep_view() =~= expected.take(i as int),
        decreases row.children@.len() - i,
    {
        let ghost before = cells.deep_view();
        cells.push(trim(collect_text(&row.children[i]).as_str()));
        assert(cells.deep_view() =~= before.push(expected[i as int]));
        i += 1;
    }
    assert(cells.deep_view() =~= expected);
    cells
}

/// A table's headers and rows.
pub fn collect_table(node: &Node) -> (table: (Vec<String>, Vec<Vec<String>>))
    ensures
        table.deep_view() == table_of(node.deep_view().children),
{
    broadcast use lemma_children_view;

    let ghost children = node.children.deep_view();
    let mut headers: Vec<String> = Vec::new();
    let mut rows: Vec<Vec<String>> = Vec::new();
    let mut is_header = true;
    assert(headers.deep_view() =~= Seq::empty());
    assert(rows.deep_view() =~= Seq::empty());
    let mut i: usize = 0;
    while i < node.children.len()
        invariant
            i <= node.children@.len(),
            children == node.children.deep_view(),
            is_header == !has_row(children.take(i as int)),
            (headers.deep_view(), rows.deep_view()) == table_of(children.take(i as int)),
        decreases node.children@.len() - i,
    {
        let child = &node.children[i];
        let ghost next = children.take(i + 1);
        let ghost before = rows.deep_view();
        assert(next.drop_last() =~= children.take(i as int));
        assert(has_row(next) == (has_row(children.take(i as int)) || children[i as int].kind is
            TableRow)) by {
            if has_row(children.take(i as int)) {
                let k = choose|k: int|
                    0 <= k < i && #[trigger] children.take(i as int)[k].kind is TableRow;
                assert(next[k].kind is TableRow);
            }
            if has_row(next) {
                let k = choose|k: int| 0 <= k < next.len() && #[trigger] next[k].kind is TableRow;
                if k < i {
                    assert(children.take(i as int)[k].kind is TableRow);
                }
            }
            assert(next[i as int] == children[i as int]);
        }
        if let NodeKind::TableRow { header } = &child.kind {
            let cells = collect_cells(child);
            if is_header || *header {
                headers = cells;
                is_header = false;
            } else {
                let ghost row = cells.deep_view();
                rows.push(cells);
                assert(rows.deep_view() =~= before.push(row));
            }
        }
        i += 1;
    }
    assert(children.take(children.len() as int) =~= children);
    (headers, rows)
}

/// Appends the blocks of a node.
fn collect_blocks(node: &Node, blocks: &mut Vec<Block>)
    ensures
        final(blocks).deep_view() == old(blocks).deep_view() + blocks_of(node.deep_view()),
    decreases node,
{
    broadcast use {lemma_children_view, lemma_concat_assoc, lemma_concat_empty};

    let ghost base = old(blocks).deep_view();
    match &node.kind {
        NodeKind::Heading { level } => {
            let text = collect_text(node);
            blocks.push(Block::Heading { level: *level, text });
        },
        NodeKind::Paragraph => {
            let inlines = collect_inlines(node);
            blocks.push(Block::Paragraph { inlines });
        },
        NodeKind::CodeBlock { info, literal } => {
            let lang = trim(info.as_str());
            let code = owned(literal.as_str());
            if same_text(lang.as_str(), "mermaid") {
                blocks.push(Block::Mermaid { source: code, image: None });
            } else if lang.as_str().is_empty() {
                blocks.push(Block::CodeBlock { lang: None, code });
            } else {
                blocks.push(Block::CodeBlock { lang: Some(lang), code });
            }
        },
        NodeKind::List => {
            let items = collect_list_items(node);
            blocks.push(Block::List { items });
        },
        NodeKind::BlockQuote => {
            let text = collect_text(node);
            blocks.push(Block::BlockQuote { text });
        },
        NodeKind::ThematicBreak => {
            blocks.push(Block::ThematicBreak);
        },
        NodeKind::Table => {
            let (headers, rows) = collect_table(node);
            blocks.push(Block::Table { headers, rows });
        },
        NodeKind::Math { literal, display } => {
            blocks.push(Block::Math { source: owned(literal.as_str()), display: *display });
        },
        _ => {
            let ghost children = node.children.deep_view();
            assert(children.take(0) =~= Seq::empty());
            let mut i: usize = 0;
            while i < node.children.len()
                invariant
                    i <= node.children@.len(),
                    children == node.children.deep_view(),
                    blocks.deep_view() == base + blocks_of_all(children.take(i as int)),
                decreases node.children@.len() - i,
            {
                broadcast use lemma_concat_assoc;

                collect_blocks(&node.children[i], blocks);
                proof {
                    let next = children.take(i + 1);
                    assert(next.subrange(0, next.len() - 1) =~= children.take(i as int));
                    assert(next[next.len() - 1] == children[i as int]);
                }
                i += 1;
            }
            assert(children.take(children.len() as int) =~= children);
        },
    }
    assert(blocks.deep_view() =~= base + blocks_of(node.deep_view()));
}

/// The blocks of a document tree.
pub fn blocks_of_tree(root: &Node) -> (blocks: Vec<Block>)
    ensures
        blocks.deep_view() == blocks_of(root.deep_view()),
{
    let mut blocks: Vec<Block> = Vec::new();
    collect_blocks(root, &mut blocks);
    assert(blocks.deep_view() =~= blocks_of(root.deep_view()));
    blocks
}

/// Parse markdown string into a list of renderable blocks.
pub fn parse(content: &str) -> (blocks: Vec<Block>)
    ensures
        blocks.deep_view() == blocks_of(document(content@)),
        blocks_wf(blocks.deep_view()),
{
    let root = parse_tree(content);
    proof {
        law_blocks_are_fresh(root.deep_view());
        assert forall|i: int| 0 <= i < blocks_of(root.deep_view()).len() implies (
        #[trigger] blocks_of(root.deep_view())[i]).wf() by {
            assert(is_fresh(blocks_of(root.deep_view())[i]));
        }
    }
    blocks_of_tree(&root)
}

/// Whether a block is as the parser makes it: a diagram has no image yet, and the language of a
/// code block is trimmed, not empty and not `mermaid`.
pub open spec fn is_fresh(block: BlockV) -> bool {
    match block {
        BlockV::Mermaid { source: _, image } => image is None,
        BlockV::CodeBlock { lang: Some(lang), code: _ } => {
            &&& lang.len() > 0
            &&& trimmed(lang) == lang
            &&& lang != "mermaid"@
        },
        _ => true,
    }
}

/// Every block of a document is as the parser makes it.
pub proof fn law_blocks_are_fresh(node: NodeV)
    ensures
        forall|i: int| 0 <= i < blocks_of(node).len() ==> is_fresh(#[trigger] blocks_of(node)[i]),
    decreases node,
{
    match node.kind {
        NodeKindV::CodeBlock { info, literal } => {
            law_trimmed_is_trimmed(info);
            assert(is_fresh(code_block_of(info, literal)));
        },
        NodeKindV::Heading { level: _ }
        | NodeKindV::Paragraph
        | NodeKindV::List
        | NodeKindV::BlockQuote
        | NodeKindV::ThematicBreak
        | NodeKindV::Table
        | NodeKindV::Math { literal: _, display: _ } => {},
        _ => {
            lemma_all_blocks_are_fresh(node.children);
            assert(blocks_of(node) == blocks_of_all(node.children));
        },
    }
}

/// Every block of several nodes is as the parser makes it.
proof fn lemma_all_blocks_are_fresh(nodes: Seq<NodeV>)
    ensures
        forall|i: int|
            0 <= i < blocks_of_all(nodes).len() ==> is_fresh(#[trigger] blocks_of_all(nodes)[i]),
    decreases nodes,
{
    if nodes.len() > 0 {
        let rest = nodes.subrange(0, nodes.len() - 1);
        let last = nodes[nodes.len() - 1];
        lemma_all_blocks_are_fresh(rest);
        law_blocks_are_fresh(last);
        assert(blocks_of_all(nodes) == blocks_of_all(rest) + blocks_of(last));
    }
}

/// The blocks of two runs of nodes are those of the first and then those of the second.
pub proof fn law_blocks_of_two_runs(a: Seq<NodeV>, b: Seq<NodeV>)
    ensures
        blocks_of_all(a + b) == blocks_of_all(a) + blocks_of_all(b),
    decreases b.len(),
{
    broadcast use {lemma_concat_assoc, lemma_concat_empty};

    if b.len() == 0 {
        assert(a + b =~= a);
    } else {
        let rest = b.subrange(0, b.len() - 1);
        let all = a + b;
        assert(all.subrange(0, all.len() - 1) =~= a + rest);
        law_blocks_of_two_runs(a, rest);
    }
}

/// Whether no node below that holds a text or a formula, or breaks a line, has nodes below it.
pub open spec fn has_bare_leaves(node: NodeV) -> bool
    decreases node,
{
    &&& (node.kind is Text || node.kind is Code || node.kind is Math || node.kind is SoftBreak
        || node.kind is LineBreak) ==> node.children.len() == 0
    &&& all_have_bare_leaves(node.children)
}

/// Whether that holds of several nodes.
pub open spec fn all_have_bare_leaves(nodes: Seq<NodeV>) -> bool
    decreases nodes,
{
    nodes.len() == 0 || (all_have_bare_leaves(nodes.subrange(0, nodes.len() - 1))
        && has_bare_leaves(nodes[nodes.len() - 1]))
}

/// The bare text of an inline; a formula has none.
pub open spec fn bare_text(inline: InlineV) -> Seq<char> {
    match inline {
        InlineV::Text(t) => t,
        InlineV::Bold(t) => t,
        InlineV::Italic(t) => t,
        InlineV::Strikethrough(t) => t,
        InlineV::Code(t) => t,
        InlineV::Link { text, url: _ } => text,
        InlineV::Math { source: _ } => Seq::empty(),
        InlineV::SoftBreak => seq![' '],
        InlineV::LineBreak => seq![' '],
    }
}

/// The bare texts of inlines, one after the other.
pub open spec fn bare_texts(inlines: Seq<InlineV>) -> Seq<char>
    decreases inlines.len(),
{
    if inlines.len() == 0 {
        Seq::empty()
    } else {
        bare_texts(inlines.drop_last()) + bare_text(inlines.last())
    }
}

/// The bare texts of two runs of inlines are those of the first and then those of the second.
proof fn lemma_bare_texts_of_two_runs(a: Seq<InlineV>, b: Seq<InlineV>)
    ensures
        bare_texts(a + b) == bare_texts(a) + bare_texts(b),
    decreases b.len(),
{
    broadcast use {lemma_concat_assoc, lemma_concat_empty};

    if b.len() == 0 {
        assert(a + b =~= a);
    } else {
        assert((a + b).drop_last() =~= a + b.drop_last());
        lemma_bare_texts_of_two_runs(a, b.drop_last());
    }
}

/// The inlines of nodes hold exactly the text of the nodes, whatever the emphasis: nothing is lost
/// and nothing is added.
pub proof fn law_inlines_keep_the_text(nodes: Seq<NodeV>, ctx: InlineCtx)
    requires
        all_have_bare_leaves(nodes),
    ensures
        bare_texts(inlines_of_all(nodes, ctx)) == text_of_all(nodes),
    decreases nodes,
{
    if nodes.len() > 0 {
        let rest = nodes.subrange(0, nodes.len() - 1);
        let last = nodes[nodes.len() - 1];
        law_inlines_keep_the_text(rest, ctx);
        lemma_inlines_of_one(last, ctx);
        lemma_bare_texts_of_two_runs(inlines_of_all(rest, ctx), inlines_of(last, ctx));
    }
}

/// The inlines of a node hold exactly its text.
proof fn lemma_inlines_of_one(node: NodeV, ctx: InlineCtx)
    requires
        has_bare_leaves(node),
    ensures
        bare_texts(inlines_of(node, ctx)) == text_of(node),
    decreases node,
{
    let inlines = inlines_of(node, ctx);
    match node.kind {
        NodeKindV::Strong => {
            law_inlines_keep_the_text(node.children, InlineCtx::Bold);
            assert(text_of(node) =~= text_of_all(node.children));
        },
        NodeKindV::Emph => {
            law_inlines_keep_the_text(node.children, InlineCtx::Italic);
            assert(text_of(node) =~= text_of_all(node.children));
        },
        NodeKindV::Strikethrough => {
            law_inlines_keep_the_text(node.children, InlineCtx::Strikethrough);
            assert(text_of(node) =~= text_of_all(node.children));
        },
        NodeKindV::Text { literal: _ }
        | NodeKindV::Code { literal: _ }
        | NodeKindV::Link { url: _ }
        | NodeKindV::Math { literal: _, display: _ }
        | NodeKindV::SoftBreak
        | NodeKindV::LineBreak => {
            assert(inlines.drop_last() =~= Seq::empty());
            assert(bare_texts(inlines.drop_last()) =~= Seq::empty());
            assert(bare_texts(inlines) =~= bare_text(inlines[0]));
            assert(text_of(node) =~= own_text(node.kind) + text_of_all(node.children));
            assert(bare_text(inlines[0]) =~= text_of(node));
        },
        _ => {
            law_inlines_keep_the_text(node.children, ctx);
            assert(text_of(node) =~= text_of_all(node.children));
        },
    }
}

/// The text along a walk over nodes: that of texts and of code, and a space for each break.
pub open spec fn walked_text(edges: Seq<Option<NodeKindV>>) -> Seq<char>
    decreases edges.len(),
{
    if edges.len() == 0 {
        Seq::empty()
    } else {
        walked_text(edges.drop_last()) + match edges.last() {
            Some(NodeKindV::Text { literal }) => literal,
            Some(NodeKindV::Code { literal }) => literal,
            Some(NodeKindV::SoftBreak) => seq![' '],
            Some(NodeKindV::LineBreak) => seq![' '],
            _ => Seq::empty(),
        }
    }
}

/// The text along two walks is that along the first and then that along the second.
proof fn lemma_walked_text_of_two(a: Seq<Option<NodeKindV>>, b: Seq<Option<NodeKindV>>)
    ensures
        walked_text(a + b) == walked_text(a) + walked_text(b),
    decreases b.len(),
{
    broadcast use {lemma_concat_assoc, lemma_concat_empty};

    if b.len() == 0 {
        assert(a + b =~= a);
    } else {
        assert((a + b).drop_last() =~= a + b.drop_last());
        lemma_walked_text_of_two(a, b.drop_last());
    }
}

/// The text along a walk of one step.
proof fn lemma_walked_text_of_one(edge: Option<NodeKindV>)
    ensures
        walked_text(seq![edge]) == match edge {
            Some(kind) => own_text(kind),
            None => Seq::<char>::empty(),
        },
{
    let one = seq![edge];
    assert(one.drop_last() =~= Seq::empty());
    assert(walked_text(one.drop_last()) =~= Seq::empty());
    assert(walked_text(one) =~= match edge {
        Some(kind) => own_text(kind),
        None => Seq::<char>::empty(),
    });
}

/// The text of a node is all the text that a walk over it meets, in the order in which it stands
/// in the document.
pub proof fn law_text_is_all_that_is_met(node: NodeV)
    ensures
        text_of(node) == walked_text(walk(node)),
    decreases node,
{
    broadcast use {lemma_concat_assoc, lemma_concat_empty};

    let first: Seq<Option<NodeKindV>> = seq![Some(node.kind)];
    let end: Seq<Option<NodeKindV>> = seq![None];
    lemma_texts_are_all_that_is_met(node.children);
    lemma_walked_text_of_two(first + walk_all(node.children), end);
    lemma_walked_text_of_two(first, walk_all(node.children));
    lemma_walked_text_of_one(Some(node.kind));
    lemma_walked_text_of_one(None);
    assert(text_of(node) =~= walked_text(walk(node)));
}

/// The texts of nodes are all the text that the walks over them meet.
proof fn lemma_texts_are_all_that_is_met(nodes: Seq<NodeV>)
    ensures
        text_of_all(nodes) == walked_text(walk_all(nodes)),
    decreases nodes,
{
    if nodes.len() > 0 {
        let rest = nodes.subrange(0, nodes.len() - 1);
        let last = nodes[nodes.len() - 1];
        lemma_texts_are_all_that_is_met(rest);
        law_text_is_all_that_is_met(last);
        assert(nodes =~= rest.push(last));
        lemma_walk_all_push(rest, last);
        lemma_walked_text_of_two(walk_all(rest), walk(last));
    }
}

/// The links among inlines: the text and the destination of each.
pub open spec fn links_in(inlines: Seq<InlineV>) -> Seq<(Seq<char>, Seq<char>)>
    decreases inlines.len(),
{
    if inlines.len() == 0 {
        Seq::empty()
    } else {
        match inlines.last() {
            InlineV::Link { text, url } => links_in(inlines.drop_last()).push((text, url)),
            _ => links_in(inlines.drop_last()),
        }
    }
}

/// Whether a node stands in a paragraph as one piece, whatever is below it.
pub open spec fn is_piece(kind: NodeKindV) -> bool {
    ||| kind is Text
    ||| kind is Code
    ||| kind is Link
    ||| kind is Math
    ||| kind is SoftBreak
    ||| kind is LineBreak
}

/// The outermost links of a node: the text that a walk over each one meets, and its destination.
pub open spec fn links_below(node: NodeV) -> Seq<(Seq<char>, Seq<char>)>
    decreases node,
{
    match node.kind {
        NodeKindV::Link { url } => seq![(walked_text(walk(node)), url)],
        _ => if is_piece(node.kind) {
            Seq::empty()
        } else {
            links_below_all(node.children)
        },
    }
}

/// The outermost links of several nodes, one after the other.
pub open spec fn links_below_all(nodes: Seq<NodeV>) -> Seq<(Seq<char>, Seq<char>)>
    decreases nodes,
{
    if nodes.len() == 0 {
        Seq::empty()
    } else {
        links_below_all(nodes.subrange(0, nodes.len() - 1)) + links_below(nodes[nodes.len() - 1])
    }
}

/// The links among two runs of inlines are those of the first and then those of the second.
proof fn lemma_links_in_two_runs(a: Seq<InlineV>, b: Seq<InlineV>)
    ensures
        links_in(a + b) == links_in(a) + links_in(b),
    decreases b.len(),
{
    if b.len() == 0 {
        assert(a + b =~= a);
        assert(links_in(a) + links_in(b) =~= links_in(a));
    } else {
        assert((a + b).drop_last() =~= a + b.drop_last());
        lemma_links_in_two_runs(a, b.drop_last());
        assert(links_in(a + b) =~= links_in(a) + links_in(b));
    }
}

/// The links of a paragraph are kept, whatever the emphasis around them: they are, in order, the
/// links of the nodes that stand in no other link, each with its text and its destination.
pub proof fn law_links_are_kept(nodes: Seq<NodeV>, ctx: InlineCtx)
    ensures
        links_in(inlines_of_all(nodes, ctx)) == links_below_all(nodes),
    decreases nodes,
{
    if nodes.len() > 0 {
        let rest = nodes.subrange(0, nodes.len() - 1);
        let last = nodes[nodes.len() - 1];
        law_links_are_kept(rest, ctx);
        lemma_links_of_one(last, ctx);
        lemma_links_in_two_runs(inlines_of_all(rest, ctx), inlines_of(last, ctx));
    }
}

/// The links of a node are kept.
proof fn lemma_links_of_one(node: NodeV, ctx: InlineCtx)
    ensures
        links_in(inlines_of(node, ctx)) == links_below(node),
    decreases node,
{
    let inlines = inlines_of(node, ctx);
    law_text_is_all_that_is_met(node);
    if is_piece(node.kind) {
        assert(inlines.drop_last() =~= Seq::empty());
        assert(links_in(inlines.drop_last()) =~= Seq::empty());
        assert(links_in(inlines) =~= links_below(node));
    } else {
        match node.kind {
            NodeKindV::Strong => law_links_are_kept(node.children, InlineCtx::Bold),
            NodeKindV::Emph => law_links_are_kept(node.children, InlineCtx::Italic),
            NodeKindV::Strikethrough => law_links_are_kept(
                node.children,
                InlineCtx::Strikethrough,
            ),
            _ => law_links_are_kept(node.children, ctx),
        }
    }
}

/// The pieces of a node that stands in a paragraph below nodes of the given kinds, from the
/// outermost one: each piece with the kinds of the nodes that it stands below.
pub open spec fn pieces_below(node: NodeV, above: Seq<NodeKindV>) -> Seq<(Seq<NodeKindV>, NodeV)>
    decreases node,
{
    if is_piece(node.kind) {
        seq![(above, node)]
    } else {
        pieces_below_all(node.children, above.push(node.kind))
    }
}

/// The pieces of several nodes, one after the other.
pub open spec fn pieces_below_all(nodes: Seq<NodeV>, above: Seq<NodeKindV>) -> Seq<
    (Seq<NodeKindV>, NodeV),
>
    decreases nodes,
{
    if nodes.len() == 0 {
        Seq::empty()
    } else {
        pieces_below_all(nodes.subrange(0, nodes.len() - 1), above) + pieces_below(
            nodes[nodes.len() - 1],
            above,
        )
    }
}

/// Whether a kind of node stands for emphasis.
pub open spec fn is_emphasis(kind: NodeKindV) -> bool {
    kind is Strong || kind is Emph || kind is Strikethrough
}

/// Whether the innermost emphasis among the kinds is the given one.
pub open spec fn is_innermost(above: Seq<NodeKindV>, emphasis: NodeKindV) -> bool {
    exists|i: int|
        {
            &&& 0 <= i < above.len()
            &&& #[trigger] above[i] == emphasis
            &&& is_emphasis(emphasis)
            &&& forall|j: int| i < j < above.len() ==> !is_emphasis(#[trigger] above[j])
        }
}

/// Whether there is no emphasis among the kinds.
pub open spec fn is_bare(above: Seq<NodeKindV>) -> bool {
    forall|i: int| 0 <= i < above.len() ==> !is_emphasis(#[trigger] above[i])
}

/// Whether an inline is what a piece below nodes of the given kinds looks like: a text is in the
/// innermost emphasis around it, and nothing else is changed by any emphasis.
pub open spec fn looks_like(inline: InlineV, above: Seq<NodeKindV>, node: NodeV) -> bool {
    match node.kind {
        NodeKindV::Text { literal } => {
            &&& is_innermost(above, NodeKindV::Strong) ==> inline == InlineV::Bold(literal)
            &&& is_innermost(above, NodeKindV::Emph) ==> inline == InlineV::Italic(literal)
            &&& is_innermost(above, NodeKindV::Strikethrough) ==> inline == InlineV::Strikethrough(
                literal,
            )
            &&& is_bare(above) ==> inline == InlineV::Text(literal)
        },
        NodeKindV::Code { literal } => inline == InlineV::Code(literal),
        NodeKindV::Link { url } => inline == (InlineV::Link {
            text: walked_text(walk(node)),
            url,
        }),
        NodeKindV::Math { literal, display: _ } => inline == (InlineV::Math { source: literal }),
        NodeKindV::SoftBreak => inline is SoftBreak,
        NodeKindV::LineBreak => inline is LineBreak,
        _ => false,
    }
}

/// Whether every inline is what the piece in its place looks like.
pub open spec fn all_look_like(
    inlines: Seq<InlineV>,
    pieces: Seq<(Seq<NodeKindV>, NodeV)>,
) -> bool {
    &&& inlines.len() == pieces.len()
    &&& forall|i: int|
        0 <= i < inlines.len() ==> looks_like(#[trigger] inlines[i], pieces[i].0, pieces[i].1)
}

/// The emphasis that stands for the innermost one among the kinds.
spec fn fits(ctx: InlineCtx, above: Seq<NodeKindV>) -> bool {
    match ctx {
        InlineCtx::Normal => is_bare(above),
        InlineCtx::Bold => is_innermost(above, NodeKindV::Strong),
        InlineCtx::Italic => is_innermost(above, NodeKindV::Emph),
        InlineCtx::Strikethrough => is_innermost(above, NodeKindV::Strikethrough),
    }
}

/// There is one innermost emphasis at most, and none where there is no emphasis.
proof fn lemma_one_innermost(above: Seq<NodeKindV>, a: NodeKindV, b: NodeKindV)
    requires
        is_innermost(above, a),
    ensures
        !is_bare(above),
        is_innermost(above, b) ==> a == b,
{
    let i = choose|i: int|
        {
            &&& 0 <= i < above.len()
            &&& #[trigger] above[i] == a
            &&& is_emphasis(a)
            &&& forall|j: int| i < j < above.len() ==> !is_emphasis(#[trigger] above[j])
        };
    assert(is_emphasis(above[i]));
}

/// One more node around a piece: emphasis becomes the innermost one, anything else leaves it.
proof fn lemma_fits_below(ctx: InlineCtx, above: Seq<NodeKindV>, kind: NodeKindV)
    requires
        fits(ctx, above),
    ensures
        !is_emphasis(kind) ==> fits(ctx, above.push(kind)),
        is_emphasis(kind) ==> is_innermost(above.push(kind), kind),
{
    let more = above.push(kind);
    assert(more[above.len() as int] == kind);
    if !is_emphasis(kind) {
        if ctx is Normal {
            assert(forall|i: int| 0 <= i < above.len() ==> more[i] == above[i]);
        } else {
            let emphasis = match ctx {
                InlineCtx::Bold => NodeKindV::Strong,
                InlineCtx::Italic => NodeKindV::Emph,
                _ => NodeKindV::Strikethrough,
            };
            let i = choose|i: int|
                {
                    &&& 0 <= i < above.len()
                    &&& #[trigger] above[i] == emphasis
                    &&& is_emphasis(emphasis)
                    &&& forall|j: int| i < j < above.len() ==> !is_emphasis(#[trigger] above[j])
                };
            assert(more[i] == emphasis);
            assert forall|j: int| i < j < more.len() implies !is_emphasis(#[trigger] more[j]) by {
                if j < above.len() {
                    assert(more[j] == above[j]);
                }
            }
        }
    }
}

/// A paragraph shows its pieces, all of them and in order, each text in the innermost emphasis
/// around it.
pub proof fn law_paragraph_shows_its_pieces(nodes: Seq<NodeV>)
    ensures
        all_look_like(
            inlines_of_all(nodes, InlineCtx::Normal),
            pieces_below_all(nodes, Seq::empty()),
        ),
{
    lemma_pieces_of_all(nodes, Seq::empty(), InlineCtx::Normal);
}

proof fn lemma_pieces_of_all(nodes: Seq<NodeV>, above: Seq<NodeKindV>, ctx: InlineCtx)
    requires
        fits(ctx, above),
    ensures
        all_look_like(inlines_of_all(nodes, ctx), pieces_below_all(nodes, above)),
    decreases nodes,
{
    if nodes.len() > 0 {
        let rest = nodes.subrange(0, nodes.len() - 1);
        let last = nodes[nodes.len() - 1];
        lemma_pieces_of_all(rest, above, ctx);
        lemma_pieces_of_one(last, above, ctx);
        let x = inlines_of_all(rest, ctx);
        let y = pieces_below_all(rest, above);
        let a = inlines_of(last, ctx);
        let b = pieces_below(last, above);
        assert forall|i: int| 0 <= i < (x + a).len() implies looks_like(
            #[trigger] (x + a)[i],
            (y + b)[i].0,
            (y + b)[i].1,
        ) by {
            if i < x.len() {
                assert((x + a)[i] == x[i] && (y + b)[i] == y[i]);
            } else {
                assert((x + a)[i] == a[i - x.len()] && (y + b)[i] == b[i - x.len()]);
            }
        }
    }
}

proof fn lemma_pieces_of_one(node: NodeV, above: Seq<NodeKindV>, ctx: InlineCtx)
    requires
        fits(ctx, above),
    ensures
        all_look_like(inlines_of(node, ctx), pieces_below(node, above)),
    decreases node,
{
    law_text_is_all_that_is_met(node);
    if is_piece(node.kind) {
        let inline = inlines_of(node, ctx)[0];
        if node.kind is Text {
            if !(ctx is Normal) {
                let emphasis = match ctx {
                    InlineCtx::Bold => NodeKindV::Strong,
                    InlineCtx::Italic => NodeKindV::Emph,
                    _ => NodeKindV::Strikethrough,
                };
                lemma_one_innermost(above, emphasis, NodeKindV::Strong);
                lemma_one_innermost(above, emphasis, NodeKindV::Emph);
                lemma_one_innermost(above, emphasis, NodeKindV::Strikethrough);
            } else {
                assert(!is_innermost(above, NodeKindV::Strong));
                assert(!is_innermost(above, NodeKindV::Emph));
                assert(!is_innermost(above, NodeKindV::Strikethrough));
            }
        }
        assert(looks_like(inline, above, node));
    } else {
        let more = above.push(node.kind);
        lemma_fits_below(ctx, above, node.kind);
        match node.kind {
            NodeKindV::Strong => lemma_pieces_of_all(node.children, more, InlineCtx::Bold),
            NodeKindV::Emph => lemma_pieces_of_all(node.children, more, InlineCtx::Italic),
            NodeKindV::Strikethrough => lemma_pieces_of_all(
                node.children,
                more,
                InlineCtx::Strikethrough,
            ),
            _ => lemma_pieces_of_all(node.children, more, ctx),
        }
    }
}

/// A node of the given kind with the given nodes below it.
pub open spec fn node_with(kind: NodeKindV, children: Seq<NodeV>) -> NodeV {
    NodeV { kind, children }
}

/// The word of an info string, without the white space around it, is the language of a code block,
/// `mermaid` makes a diagram of it, and the code is kept as it is.
pub proof fn law_info_word_is_the_language(
    before: Seq<char>,
    word: Seq<char>,
    after: Seq<char>,
    literal: Seq<char>,
    children: Seq<NodeV>,
)
    requires
        all_white(before),
        word.len() == 0 || is_tight(word),
        all_white(after),
    ensures
        ({
            let info = before + word + after;
            let blocks = blocks_of(node_with(NodeKindV::CodeBlock { info, literal }, children));
            &&& word == "mermaid"@ ==> blocks == seq![
                BlockV::Mermaid { source: literal, image: None },
            ]
            &&& word.len() == 0 ==> blocks == seq![BlockV::CodeBlock { lang: None, code: literal }]
            &&& word.len() > 0 && word != "mermaid"@ ==> blocks == seq![
                BlockV::CodeBlock { lang: Some(word), code: literal },
            ]
        }),
{
    reveal_strlit("mermaid");
    law_trimmed_drops_white_space(before, word, after);
}

/// Headings and quotations hold all the text that a walk over them meets; a paragraph holds the
/// inlines of what is below it, a formula its source, a rule nothing; and what is none of these,
/// nor a list, a table or code, stands for the blocks below it.
pub proof fn law_blocks_hold_their_parts(
    children: Seq<NodeV>,
    level: u8,
    literal: Seq<char>,
    display: bool,
)
    ensures
        ({
            let node = node_with(NodeKindV::Heading { level }, children);
            blocks_of(node) == seq![BlockV::Heading { level, text: walked_text(walk(node)) }]
        }),
        ({
            let node = node_with(NodeKindV::BlockQuote, children);
            blocks_of(node) == seq![BlockV::BlockQuote { text: walked_text(walk(node)) }]
        }),
        ({
            let node = node_with(NodeKindV::Paragraph, children);
            let inlines = inlines_of_all(children, InlineCtx::Normal);
            blocks_of(node) == seq![BlockV::Paragraph { inlines }]
        }),
        blocks_of(node_with(NodeKindV::Math { literal, display }, children)) == seq![
            BlockV::Math { source: literal, display },
        ],
        blocks_of(node_with(NodeKindV::ThematicBreak, children)) == seq![BlockV::ThematicBreak],
        blocks_of(node_with(NodeKindV::Document, children)) == blocks_of_all(children),
        blocks_of(node_with(NodeKindV::Item, children)) == blocks_of_all(children),
        blocks_of(node_with(NodeKindV::Other, children)) == blocks_of_all(children),
        children.len() == 0 ==> blocks_of_all(children) == Seq::<BlockV>::empty(),
        children.len() == 1 ==> blocks_of_all(children) == blocks_of(children[0]),
{
    law_text_is_all_that_is_met(node_with(NodeKindV::Heading { level }, children));
    law_text_is_all_that_is_met(node_with(NodeKindV::BlockQuote, children));
    if children.len() == 1 {
        let none = children.subrange(0, 0);
        assert(blocks_of_all(none) =~= Seq::empty());
        assert(blocks_of_all(children) =~= blocks_of(children[0]));
    }
}

/// The text of a node without white space at its ends.
pub open spec fn walked_trimmed(node: NodeV) -> Seq<char> {
    trimmed(walked_text(walk(node)))
}

/// A list has one entry for each item below it, in order: the text of the item without white space
/// at its ends. What is no item has none.
pub proof fn law_list_has_its_items(children: Seq<NodeV>)
    ensures
        blocks_of(node_with(NodeKindV::List, children)) == seq![
            BlockV::List {
                items: children.filter(|node: NodeV| node.kind is Item).map_values(
                    |node: NodeV| walked_trimmed(node),
                ),
            },
        ],
{
    lemma_items_are_filtered(children);
}

proof fn lemma_items_are_filtered(nodes: Seq<NodeV>)
    ensures
        items_of(nodes) == nodes.filter(|node: NodeV| node.kind is Item).map_values(
            |node: NodeV| walked_trimmed(node),
        ),
    decreases nodes.len(),
{
    let is_item = |node: NodeV| node.kind is Item;
    let text = |node: NodeV| walked_trimmed(node);
    reveal(Seq::filter);
    if nodes.len() == 0 {
        assert(items_of(nodes) =~= nodes.filter(is_item).map_values(text));
    } else {
        let rest = nodes.drop_last();
        lemma_items_are_filtered(rest);
        law_text_is_all_that_is_met(nodes.last());
        assert(items_of(nodes) =~= nodes.filter(is_item).map_values(text));
    }
}

/// The cells of a table row: the texts of the nodes below it without white space at their ends.
pub open spec fn row_cells(row: NodeV) -> Seq<Seq<char>> {
    row.children.map_values(|cell: NodeV| walked_trimmed(cell))
}

proof fn lemma_cells_are_texts(row: NodeV)
    ensures
        cells_of(row) == row_cells(row),
{
    assert forall|i: int| 0 <= i < row.children.len() implies cells_of(row)[i] == row_cells(
        row,
    )[i] by {
        law_text_is_all_that_is_met(row.children[i]);
    }
    assert(cells_of(row) =~= row_cells(row));
}

/// A table has the cells of its first row as its headers, and those of every other row, in order,
/// as a row, unless that is marked as a header row too.
pub proof fn law_table_has_its_rows(first: NodeV, others: Seq<NodeV>)
    requires
        first.kind is TableRow,
        forall|i: int|
            0 <= i < others.len() ==> (#[trigger] others[i]).kind == (NodeKindV::TableRow {
                header: false,
            }),
    ensures
        blocks_of(node_with(NodeKindV::Table, seq![first] + others)) == seq![
            BlockV::Table {
                headers: row_cells(first),
                rows: others.map_values(|row: NodeV| row_cells(row)),
            },
        ],
{
    lemma_table_rows(first, others);
    assert(seq![
        BlockV::Table {
            headers: table_of(seq![first] + others).0,
            rows: table_of(seq![first] + others).1,
        },
    ] =~= seq![
        BlockV::Table {
            headers: row_cells(first),
            rows: others.map_values(|row: NodeV| row_cells(row)),
        },
    ]);
}

proof fn lemma_table_rows(first: NodeV, others: Seq<NodeV>)
    requires
        first.kind is TableRow,
        forall|i: int|
            0 <= i < others.len() ==> (#[trigger] others[i]).kind == (NodeKindV::TableRow {
                header: false,
            }),
    ensures
        table_of(seq![first] + others) == (
            row_cells(first),
            others.map_values(|row: NodeV| row_cells(row)),
        ),
    decreases others.len(),
{
    let nodes = seq![first] + others;
    let cells = |row: NodeV| row_cells(row);
    lemma_cells_are_texts(nodes.last());
    if others.len() == 0 {
        assert(nodes.drop_last() =~= Seq::empty());
        assert(!has_row(nodes.drop_last()));
        assert(table_of(nodes.drop_last()) == (
            Seq::<Seq<char>>::empty(),
            Seq::<Seq<Seq<char>>>::empty(),
        ));
        assert(others.map_values(cells) =~= Seq::empty());
    } else {
        let rest = others.drop_last();
        assert(nodes.drop_last() =~= seq![first] + rest);
        assert forall|i: int| 0 <= i < rest.len() implies (#[trigger] rest[i]).kind == (
        NodeKindV::TableRow { header: false }) by {
            assert(rest[i] == others[i]);
        }
        lemma_table_rows(first, rest);
        assert(nodes.drop_last()[0].kind is TableRow);
        assert(nodes.last() == others[others.len() - 1]);
        assert(others.map_values(cells) =~= rest.map_values(cells).push(row_cells(others.last())));
    }
}

/// A row that is marked as a header row sets the headers anew, and what is no row changes nothing.
pub proof fn law_header_row_sets_the_headers(nodes: Seq<NodeV>, last: NodeV)
    ensures
        last.kind == (NodeKindV::TableRow { header: true }) ==> table_of(nodes.push(last)) == (
            row_cells(last),
            table_of(nodes).1,
        ),
        !(last.kind is TableRow) ==> table_of(nodes.push(last)) == table_of(nodes),
{
    lemma_cells_are_texts(last);
    assert(nodes.push(last).drop_last() =~= nodes);
}

/// Whether a kind of node makes a block of its own.
pub open spec fn makes_block(kind: NodeKindV) -> bool {
    ||| kind is Heading
    ||| kind is Paragraph
    ||| kind is CodeBlock
    ||| kind is List
    ||| kind is BlockQuote
    ||| kind is ThematicBreak
    ||| kind is Table
    ||| kind is Math
}

/// Every node that makes a block is one block; any other stands for the blocks below it.
pub proof fn law_blocks_are_made_by_kind(node: NodeV)
    ensures
        makes_block(node.kind) ==> blocks_of(node).len() == 1,
        !makes_block(node.kind) ==> blocks_of(node) == blocks_of_all(node.children),
        node.kind is Heading <==> makes_block(node.kind) && blocks_of(node)[0] is Heading,
        node.kind is Paragraph <==> makes_block(node.kind) && blocks_of(node)[0] is Paragraph,
        node.kind is CodeBlock <==> makes_block(node.kind) && (blocks_of(node)[0] is CodeBlock
            || blocks_of(node)[0] is Mermaid),
        node.kind is List <==> makes_block(node.kind) && blocks_of(node)[0] is List,
        node.kind is BlockQuote <==> makes_block(node.kind) && blocks_of(node)[0] is BlockQuote,
        node.kind is ThematicBreak <==> makes_block(node.kind) && blocks_of(node)[0]
            is ThematicBreak,
        node.kind is Table <==> makes_block(node.kind) && blocks_of(node)[0] is Table,
        node.kind is Math <==> makes_block(node.kind) && blocks_of(node)[0] is Math,
{
}

} // verus!
