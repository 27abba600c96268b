//! The Markdown parser: comrak's document, as a walk over its nodes.
use crate::node::{
    build_tree, is_walk, law_tree_of_walk, tree_of, walk, Node, NodeKind, NodeKindV, NodeV,
};
use crate::parser::ParsedKind::{Code, CodeBlock, Heading, Link, Math, Plain, TableRow, Text};
use crate::text::same_text;
use comrak::arena_tree::NodeEdge::{End, Start};
use comrak::nodes::NodeValue::{
    Code as CodeNode, CodeBlock as CodeBlockNode, Heading as HeadingNode, Link as LinkNode,
    Math as MathNode, TableRow as TableRowNode, Text as TextNode,
};
use comrak::options::Extension;
use comrak::{parse_document, Arena, Options};
use vstd::prelude::*;

verus! {

/// A node as the parser delivers it: the nodes that carry data by that data, every other node by
/// its name.
pub enum ParsedKind {
    Text(String),
    Code(String),
    /// The destination of a link.
    Link(String),
    /// A formula and whether it is displayed on a line of its own.
    Math(String, bool),
    /// The level of a heading.
    Heading(u8),
    /// Whether a table row is a header row.
    TableRow(bool),
    /// The info string of a code block and its contents.
    CodeBlock(String, String),
    /// The name of any other node in the CommonMark XML form of a document.
    Plain(&'static str),
}

/// The mathematical value of a [`ParsedKind`].
pub enum ParsedKindV {
    Text(Seq<char>),
    Code(Seq<char>),
    Link(Seq<char>),
    Math(Seq<char>, bool),
    Heading(u8),
    TableRow(bool),
    CodeBlock(Seq<char>, Seq<char>),
    Plain(Seq<char>),
}

impl DeepView for ParsedKind {
    type V = ParsedKindV;

    open spec fn deep_view(&self) -> ParsedKindV {
        match *self {
            ParsedKind::Text(text) => ParsedKindV::Text(text@),
            ParsedKind::Code(literal) => ParsedKindV::Code(literal@),
            ParsedKind::Link(url) => ParsedKindV::Link(url@),
            ParsedKind::Math(literal, display) => ParsedKindV::Math(literal@, display),
            ParsedKind::Heading(level) => ParsedKindV::Heading(level),
            ParsedKind::TableRow(header) => ParsedKindV::TableRow(header),
            ParsedKind::CodeBlock(info, literal) => ParsedKindV::CodeBlock(info@, literal@),
            ParsedKind::Plain(name) => ParsedKindV::Plain(name@),
        }
    }
}

/// What the walk over comrak's document for a text passes: the start of a node, with what the
/// node is, or `None` at the end of one. The flags are the syntax extensions that are on.
pub uninterp spec fn parsed_walk(
    text: Seq<char>,
    strikethrough: bool,
    table: bool,
    tasklist: bool,
    math_dollars: bool,
    math_code: bool,
) -> Seq<Option<ParsedKindV>>;

/// What a node is that the parser names so.
pub open spec fn named_kind(name: Seq<char>) -> NodeKindV {
    if name == "document"@ {
        NodeKindV::Document
    } else if name == "paragraph"@ {
        NodeKindV::Paragraph
    } else if name == "list"@ {
        NodeKindV::List
    } else if name == "item"@ {
        NodeKindV::Item
    } else if name == "block_quote"@ {
        NodeKindV::BlockQuote
    } else if name == "thematic_break"@ {
        NodeKindV::ThematicBreak
    } else if name == "table"@ {
        NodeKindV::Table
    } else if name == "strong"@ {
        NodeKindV::Strong
    } else if name == "emph"@ {
        NodeKindV::Emph
    } else if name == "strikethrough"@ {
        NodeKindV::Strikethrough
    } else if name == "softbreak"@ {
        NodeKindV::SoftBreak
    } else if name == "linebreak"@ {
        NodeKindV::LineBreak
    } else {
        NodeKindV::Other
    }
}

/// What a node that the parser delivered is.
pub open spec fn node_kind(kind: ParsedKindV) -> NodeKindV {
    match kind {
        ParsedKindV::Text(literal) => NodeKindV::Text { literal },
        ParsedKindV::Code(literal) => NodeKindV::Code { literal },
        ParsedKindV::Link(url) => NodeKindV::Link { url },
        ParsedKindV::Math(literal, display) => NodeKindV::Math { literal, display },
        ParsedKindV::Heading(level) => NodeKindV::Heading { level },
        ParsedKindV::TableRow(header) => NodeKindV::TableRow { header },
        ParsedKindV::CodeBlock(info, literal) => NodeKindV::CodeBlock { info, literal },
        ParsedKindV::Plain(name) => named_kind(name),
    }
}

/// The walk with each node as what it is.
pub open spec fn node_walk(edges: Seq<Option<ParsedKindV>>) -> Seq<Option<NodeKindV>> {
    edges.map_values(
        |edge: Option<ParsedKindV>|
            match edge {
                Some(kind) => Some(node_kind(kind)),
                None => None,
            },
    )
}

/// `comrak::parse_document` with the given syntax extensions on and all other options at their
/// defaults, then `traverse` from the document's root. The walk is a function of the text and of
/// the flags, and it is the walk over a tree: each node's end follows its start and, between
/// them, the walks over its children. What tree a text gives is comrak's matter.
#[verifier::external_body]
fn walk_document(
    text: &str,
    strikethrough: bool,
    table: bool,
    tasklist: bool,
    math_dollars: bool,
    math_code: bool,
) -> (edges: Vec<Option<ParsedKind>>)
    ensures
        edges.deep_view() == parsed_walk(
            text@,
            strikethrough,
            table,
            tasklist,
            math_dollars,
            math_code,
        ),
        is_walk(node_walk(edges.deep_view())),
{
    let on = Extension { strikethrough, table, tasklist, math_dollars, math_code, ..Default::default() };
    parse_document(&Arena::new(), text, &Options { extension: on, ..Default::default() }).traverse().map(|edge| match edge {
        End(_) => None,
        Start(node) => Some(match node.data().value.clone() {
            TextNode(text) => Text(text.into()),
            CodeNode(code) => Code(code.literal),
            LinkNode(link) => Link(link.url),
            MathNode(math) => Math(math.literal, math.display_math),
            HeadingNode(heading) => Heading(heading.level),
            TableRowNode(header) => TableRow(header),
            CodeBlockNode(block) => CodeBlock(block.info, block.literal),
            other => Plain(other.xml_node_name())
        })
    }).collect()
}

/// What a node is that the parser names so.
fn kind_of_name(name: &str) -> (kind: NodeKind)
    ensures
        kind.deep_view() == named_kind(name@),
{
    if same_text(name, "document") {
        NodeKind::Document
    } else if same_text(name, "paragraph") {
        NodeKind::Paragraph
    } else if same_text(name, "list") {
        NodeKind::List
    } else if same_text(name, "item") {
        NodeKind::Item
    } else if same_text(name, "block_quote") {
        NodeKind::BlockQuote
    } else if same_text(name, "thematic_break") {
        NodeKind::ThematicBreak
    } else if same_text(name, "table") {
        NodeKind::Table
    } else if same_text(name, "strong") {
        NodeKind::Strong
    } else if same_text(name, "emph") {
        NodeKind::Emph
    } else if same_text(name, "strikethrough") {
        NodeKind::Strikethrough
    } else if same_text(name, "softbreak") {
        NodeKind::SoftBreak
    } else if same_text(name, "linebreak") {
        NodeKind::LineBreak
    } else {
        NodeKind::Other
    }
}

/// What a node that the parser delivered is.
pub fn classify(parsed: ParsedKind) -> (kind: NodeKind)
    ensures
        kind.deep_view() == node_kind(parsed.deep_view()),
{
    match parsed {
        ParsedKind::Text(literal) => NodeKind::Text { literal },
        ParsedKind::Code(literal) => NodeKind::Code { literal },
        ParsedKind::Link(url) => NodeKind::Link { url },
        ParsedKind::Math(literal, display) => NodeKind::Math { literal, display },
        ParsedKind::Heading(level) => NodeKind::Heading { level },
        ParsedKind::TableRow(header) => NodeKind::TableRow { header },
        ParsedKind::CodeBlock(info, literal) => NodeKind::CodeBlock { info, literal },
        ParsedKind::Plain(name) => kind_of_name(name),
    }
}

/// Rebuilds the document from the parser's walk over it; `None` if the sequence is no walk over
/// a tree.
pub fn document_of_walk(edges: Vec<Option<ParsedKind>>) -> (r: Option<Node>)
    ensures
        r is Some <==> is_walk(node_walk(edges.deep_view())),
        r matches Some(node) ==> node.deep_view() == tree_of(node_walk(edges.deep_view())),
{
    let mut nodes: Vec<Option<NodeKind>> = Vec::new();
    for edge in it: edges
        invariant
            it.seq() == edges@,
            nodes.deep_view() =~= node_walk(edges.deep_view()).take(it.index() as int),
    {
        let ghost before = nodes.deep_view();
        let ghost expected = node_walk(edges.deep_view())[it.index() as int];
        match edge {
            Some(parsed) => nodes.push(Some(classify(parsed))),
            None => nodes.push(None),
        }
        assert(nodes.deep_view() =~= before.push(expected));
    }
    assert(nodes.deep_view() =~= node_walk(edges.deep_view()));
    build_tree(nodes)
}

/// The document tree of a Markdown text: strikethrough, tables, task lists and both notations of
/// math are on.
pub open spec fn document(text: Seq<char>) -> NodeV {
    tree_of(node_walk(parsed_walk(text, true, true, true, true, true)))
}

/// Parses a Markdown text into its document tree.
pub fn parse_tree(text: &str) -> (node: Node)
    ensures
        node.deep_view() == document(text@),
{
    document_of_walk(walk_document(text, true, true, true, true, true)).unwrap()
}

/// The nodes that the parser names are told apart by their names, and a name that stands for none
/// of them is that of a node of which only what is below it matters.
pub proof fn law_names_tell_nodes_apart(name: Seq<char>)
    ensures
        named_kind(name) is Document <==> name == "document"@,
        named_kind(name) is Paragraph <==> name == "paragraph"@,
        named_kind(name) is List <==> name == "list"@,
        named_kind(name) is Item <==> name == "item"@,
        named_kind(name) is BlockQuote <==> name == "block_quote"@,
        named_kind(name) is ThematicBreak <==> name == "thematic_break"@,
        named_kind(name) is Table <==> name == "table"@,
        named_kind(name) is Strong <==> name == "strong"@,
        named_kind(name) is Emph <==> name == "emph"@,
        named_kind(name) is Strikethrough <==> name == "strikethrough"@,
        named_kind(name) is SoftBreak <==> name == "softbreak"@,
        named_kind(name) is LineBreak <==> name == "linebreak"@,
        named_kind(name) is Other <==> !set![
            "document"@,
            "paragraph"@,
            "list"@,
            "item"@,
            "block_quote"@,
            "thematic_break"@,
            "table"@,
            "strong"@,
            "emph"@,
            "strikethrough"@,
            "softbreak"@,
            "linebreak"@,
        ].contains(name),
{
    reveal_strlit("document");
    reveal_strlit("paragraph");
    reveal_strlit("list");
    reveal_strlit("item");
    reveal_strlit("block_quote");
    reveal_strlit("thematic_break");
    reveal_strlit("table");
    reveal_strlit("strong");
    reveal_strlit("emph");
    reveal_strlit("strikethrough");
    reveal_strlit("softbreak");
    reveal_strlit("linebreak");
    assert("document"@.len() == 8);
    assert("paragraph"@.len() == 9);
    assert("list"@.len() == 4);
    assert("item"@.len() == 4);
    assert("block_quote"@.len() == 11);
    assert("thematic_break"@.len() == 14);
    assert("table"@.len() == 5);
    assert("strong"@.len() == 6);
    assert("emph"@.len() == 4);
    assert("strikethrough"@.len() == 13);
    assert("softbreak"@.len() == 9);
    assert("linebreak"@.len() == 9);
    assert("paragraph"@[0] == 'p');
    assert("list"@[0] == 'l');
    assert("item"@[0] == 'i');
    assert("emph"@[0] == 'e');
    assert("softbreak"@[0] == 's');
    assert("linebreak"@[0] == 'l');
}

/// What the parser delivers with a node is what the node holds, and the walk over the document has
/// the nodes where the parser's walk has them.
pub proof fn law_nodes_hold_what_was_parsed(
    edges: Seq<Option<ParsedKindV>>,
    i: int,
    text: Seq<char>,
    more: Seq<char>,
    flag: bool,
    level: u8,
)
    requires
        0 <= i < edges.len(),
    ensures
        node_walk(edges).len() == edges.len(),
        edges[i] is None <==> node_walk(edges)[i] is None,
        edges[i] == Some(ParsedKindV::Text(text)) ==> node_walk(edges)[i] == Some(
            NodeKindV::Text { literal: text },
        ),
        edges[i] == Some(ParsedKindV::Code(text)) ==> node_walk(edges)[i] == Some(
            NodeKindV::Code { literal: text },
        ),
        edges[i] == Some(ParsedKindV::Link(text)) ==> node_walk(edges)[i] == Some(
            NodeKindV::Link { url: text },
        ),
        edges[i] == Some(ParsedKindV::Math(text, flag)) ==> node_walk(edges)[i] == Some(
            NodeKindV::Math { literal: text, display: flag },
        ),
        edges[i] == Some(ParsedKindV::Heading(level)) ==> node_walk(edges)[i] == Some(
            NodeKindV::Heading { level },
        ),
        edges[i] == Some(ParsedKindV::TableRow(flag)) ==> node_walk(edges)[i] == Some(
            NodeKindV::TableRow { header: flag },
        ),
        edges[i] == Some(ParsedKindV::CodeBlock(text, more)) ==> node_walk(edges)[i] == Some(
            NodeKindV::CodeBlock { info: text, literal: more },
        ),
        edges[i] == Some(ParsedKindV::Plain(text)) ==> node_walk(edges)[i] == Some(
            named_kind(text),
        ),
{
}

/// The document of a text is the tree over which the parser walks when strikethrough, tables, task
/// lists and both notations of math are on.
pub proof fn law_document_is_what_is_parsed(text: Seq<char>, tree: NodeV)
    ensures
        walk(tree) == node_walk(parsed_walk(text, true, true, true, true, true)) ==> document(text)
            == tree,
{
    if walk(tree) == node_walk(parsed_walk(text, true, true, true, true, true)) {
        law_tree_of_walk(tree);
    }
}

} // verus!
