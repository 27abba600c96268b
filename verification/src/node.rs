//! The document tree that a Markdown parser delivers, and how it is rebuilt from a walk over it.
use vstd::prelude::*;

verus! {

/// What a node of the document is.
pub enum NodeKind {
    Document,
    Heading { level: u8 },
    Paragraph,
    CodeBlock { info: String, literal: String },
    List,
    Item,
    BlockQuote,
    ThematicBreak,
    Table,
    TableRow { header: bool },
    Math { literal: String, display: bool },
    Text { literal: String },
    Code { literal: String },
    Strong,
    Emph,
    Strikethrough,
    Link { url: String },
    SoftBreak,
    LineBreak,
    /// Any other node; only its children matter.
    Other,
}

/// The mathematical value of a [`NodeKind`].
pub enum NodeKindV {
    Document,
    Heading { level: u8 },
    Paragraph,
    CodeBlock { info: Seq<char>, literal: Seq<char> },
    List,
    Item,
    BlockQuote,
    ThematicBreak,
    Table,
    TableRow { header: bool },
    Math { literal: Seq<char>, display: bool },
    Text { literal: Seq<char> },
    Code { literal: Seq<char> },
    Strong,
    Emph,
    Strikethrough,
    Link { url: Seq<char> },
    SoftBreak,
    LineBreak,
    Other,
}

impl DeepView for NodeKind {
    type V = NodeKindV;

    open spec fn deep_view(&self) -> NodeKindV {
        match *self {
            NodeKind::Document => NodeKindV::Document,
            NodeKind::Heading { level } => NodeKindV::Heading { level },
            NodeKind::Paragraph => NodeKindV::Paragraph,
            NodeKind::CodeBlock { info, literal } => NodeKindV::CodeBlock {
                info: info@,
                literal: literal@,
            },
            NodeKind::List => NodeKindV::List,
            NodeKind::Item => NodeKindV::Item,
            NodeKind::BlockQuote => NodeKindV::BlockQuote,
            NodeKind::ThematicBreak => NodeKindV::ThematicBreak,
            NodeKind::Table => NodeKindV::Table,
            NodeKind::TableRow { header } => NodeKindV::TableRow { header },
            NodeKind::Math { literal, display } => NodeKindV::Math { literal: literal@, display },
            NodeKind::Text { literal } => NodeKindV::Text { literal: literal@ },
            NodeKind::Code { literal } => NodeKindV::Code { literal: literal@ },
            NodeKind::Strong => NodeKindV::Strong,
            NodeKind::Emph => NodeKindV::Emph,
            NodeKind::Strikethrough => NodeKindV::Strikethrough,
            NodeKind::Link { url } => NodeKindV::Link { url: url@ },
            NodeKind::SoftBreak => NodeKindV::SoftBreak,
            NodeKind::LineBreak => NodeKindV::LineBreak,
            NodeKind::Other => NodeKindV::Other,
        }
    }
}

/// A node of the document with the nodes below it.
pub struct Node {
    pub kind: NodeKind,
    pub children: Vec<Node>,
}

/// The mathematical value of a [`Node`].
pub struct NodeV {
    pub kind: NodeKindV,
    pub children: Seq<NodeV>,
}

/// The value of a node and, below it, of its children.
pub open spec fn node_value(node: Node) -> NodeV
    decreases node,
{
    NodeV {
        kind: node.kind.deep_view(),
        children: Seq::new(
            node.children@.len(),
            |i: int|
                if 0 <= i < node.children@.len() {
                    node_value(node.children@[i])
                } else {
                    arbitrary()
                },
        ),
    }
}

impl DeepView for Node {
    type V = NodeV;

    open spec fn deep_view(&self) -> NodeV {
        node_value(*self)
    }
}

/// The children of a node, seen one by one, are the children of its value.
pub broadcast proof fn lemma_children_view(node: Node)
    ensures
        #[trigger] node_value(node).children == node.children.deep_view(),
{
    assert(node_value(node).children =~= node.children.deep_view());
}

/// The walk over a tree in document order: a node's kind where the walk enters it, `None` where
/// it leaves it.
pub open spec fn walk(node: NodeV) -> Seq<Option<NodeKindV>>
    decreases node,
{
    seq![Some(node.kind)] + walk_all(node.children) + seq![None]
}

/// The walks over several trees, one after the other.
pub open spec fn walk_all(nodes: Seq<NodeV>) -> Seq<Option<NodeKindV>>
    decreases nodes,
{
    if nodes.len() == 0 {
        Seq::empty()
    } else {
        walk(nodes[0]) + walk_all(nodes.subrange(1, nodes.len() as int))
    }
}

/// Whether the sequence is the walk over some tree.
pub open spec fn is_walk(edges: Seq<Option<NodeKindV>>) -> bool {
    exists|node: NodeV| walk(node) == edges
}

/// The tree over which the sequence is the walk.
pub open spec fn tree_of(edges: Seq<Option<NodeKindV>>) -> NodeV
    recommends
        is_walk(edges),
{
    choose|node: NodeV| walk(node) == edges
}

/// A walk determines its tree.
pub proof fn law_walk_determines_tree(a: NodeV, b: NodeV)
    requires
        walk(a) == walk(b),
    ensures
        a == b,
{
    assert(walk(a) + Seq::empty() =~= walk(b) + Seq::<Option<NodeKindV>>::empty());
    lemma_walk_injective(a, b, Seq::empty(), Seq::empty());
}

/// Rebuilding the tree of a walk gives back the tree that was walked.
pub proof fn law_tree_of_walk(node: NodeV)
    ensures
        tree_of(walk(node)) == node,
{
    assert(walk(node) == walk(node));
    law_walk_determines_tree(tree_of(walk(node)), node);
}

proof fn lemma_walk_injective(
    a: NodeV,
    b: NodeV,
    x: Seq<Option<NodeKindV>>,
    y: Seq<Option<NodeKindV>>,
)
    requires
        walk(a) + x == walk(b) + y,
    ensures
        a == b,
        x == y,
    decreases a,
{
    let none: Seq<Option<NodeKindV>> = seq![None];
    assert((walk(a) + x)[0] == Some(a.kind));
    assert((walk(b) + y)[0] == Some(b.kind));
    assert((walk(a) + x).skip(1) =~= walk_all(a.children) + (none + x));
    assert((walk(b) + y).skip(1) =~= walk_all(b.children) + (none + y));
    lemma_walk_all_injective(a.children, b.children, none + x, none + y);
    assert((none + x).skip(1) =~= x);
    assert((none + y).skip(1) =~= y);
}

proof fn lemma_walk_all_injective(
    a: Seq<NodeV>,
    b: Seq<NodeV>,
    x: Seq<Option<NodeKindV>>,
    y: Seq<Option<NodeKindV>>,
)
    requires
        walk_all(a) + x == walk_all(b) + y,
        x.len() > 0 && x[0] is None,
        y.len() > 0 && y[0] is None,
    ensures
        a == b,
        x == y,
    decreases a,
{
    if a.len() == 0 || b.len() == 0 {
        assert(walk_all(a) + x == walk_all(b) + y);
        if a.len() > 0 {
            assert((walk_all(a) + x)[0] == walk(a[0])[0]);
            assert((walk_all(b) + y)[0] == y[0]);
        }
        if b.len() > 0 {
            assert((walk_all(b) + y)[0] == walk(b[0])[0]);
            assert((walk_all(a) + x)[0] == x[0]);
        }
        assert(a =~= b);
        assert(walk_all(a) + x =~= x);
        assert(walk_all(b) + y =~= y);
    } else {
        let ta = a.subrange(1, a.len() as int);
        let tb = b.subrange(1, b.len() as int);
        assert(walk_all(a) + x =~= walk(a[0]) + (walk_all(ta) + x));
        assert(walk_all(b) + y =~= walk(b[0]) + (walk_all(tb) + y));
        lemma_walk_injective(a[0], b[0], walk_all(ta) + x, walk_all(tb) + y);
        lemma_walk_all_injective(ta, tb, x, y);
        assert(a =~= seq![a[0]] + ta);
        assert(b =~= seq![b[0]] + tb);
    }
}

/// How many nodes the walk has entered and not left yet.
pub open spec fn depth(edges: Seq<Option<NodeKindV>>) -> int
    decreases edges.len(),
{
    if edges.len() == 0 {
        0
    } else {
        depth(edges.drop_last()) + if edges.last() is Some {
            1int
        } else {
            -1int
        }
    }
}

proof fn lemma_depth_concat(a: Seq<Option<NodeKindV>>, b: Seq<Option<NodeKindV>>)
    ensures
        depth(a + b) == depth(a) + depth(b),
    decreases b.len(),
{
    if b.len() == 0 {
        assert(a + b =~= a);
    } else {
        assert((a + b).drop_last() =~= a + b.drop_last());
        lemma_depth_concat(a, b.drop_last());
    }
}

/// Inside a walk the depth is positive; at its end it is zero.
proof fn lemma_walk_depth(node: NodeV)
    ensures
        walk(node).len() >= 2,
        depth(walk(node)) == 0,
        forall|k: int| 0 < k < walk(node).len() ==> depth(#[trigger] walk(node).take(k)) > 0,
    decreases node,
{
    let w = walk(node);
    let first: Seq<Option<NodeKindV>> = seq![Some(node.kind)];
    let inner = walk_all(node.children);
    let end: Seq<Option<NodeKindV>> = seq![None];
    lemma_walk_all_depth(node.children);
    lemma_depth_concat(first + inner, end);
    lemma_depth_concat(first, inner);
    reveal_with_fuel(depth, 2);
    assert(first.drop_last() =~= Seq::empty());
    assert(end.drop_last() =~= Seq::empty());
    assert forall|k: int| 0 < k < w.len() implies depth(#[trigger] w.take(k)) > 0 by {
        assert(w.take(k) =~= first + inner.take(k - 1));
        lemma_depth_concat(first, inner.take(k - 1));
    }
}

/// A row of walks never goes below the depth that it starts at, and ends there.
proof fn lemma_walk_all_depth(nodes: Seq<NodeV>)
    ensures
        depth(walk_all(nodes)) == 0,
        forall|k: int|
            0 <= k <= walk_all(nodes).len() ==> depth(#[trigger] walk_all(nodes).take(k)) >= 0,
    decreases nodes,
{
    let all = walk_all(nodes);
    if nodes.len() == 0 {
        assert(all.take(0) =~= all);
    } else {
        let tail = nodes.subrange(1, nodes.len() as int);
        let w = walk(nodes[0]);
        lemma_walk_depth(nodes[0]);
        lemma_walk_all_depth(tail);
        lemma_depth_concat(w, walk_all(tail));
        assert forall|k: int| 0 <= k <= all.len() implies depth(#[trigger] all.take(k)) >= 0 by {
            if k <= w.len() {
                assert(all.take(k) =~= w.take(k));
                assert(w.take(w.len() as int) =~= w);
                assert(w.take(0) =~= Seq::empty());
            } else {
                assert(all.take(k) =~= w + walk_all(tail).take(k - w.len()));
                lemma_depth_concat(w, walk_all(tail).take(k - w.len()));
            }
        }
    }
}

/// The walks over nodes and one more are those over the nodes and then that over the other one.
pub proof fn lemma_walk_all_push(nodes: Seq<NodeV>, last: NodeV)
    ensures
        walk_all(nodes.push(last)) == walk_all(nodes) + walk(last),
    decreases nodes.len(),
{
    let all = nodes.push(last);
    let tail = all.subrange(1, all.len() as int);
    if nodes.len() == 0 {
        assert(walk_all(tail) =~= Seq::empty());
        assert(walk_all(all) =~= walk_all(nodes) + walk(last));
    } else {
        assert(tail =~= nodes.subrange(1, nodes.len() as int).push(last));
        lemma_walk_all_push(nodes.subrange(1, nodes.len() as int), last);
        assert(walk_all(all) =~= walk_all(nodes) + walk(last));
    }
}

/// What the walk has passed while the nodes of the stack are entered and not left: each of them,
/// with those of its children that are complete.
spec fn open_walk(stack: Seq<NodeV>) -> Seq<Option<NodeKindV>>
    decreases stack.len(),
{
    if stack.len() == 0 {
        Seq::empty()
    } else {
        open_walk(stack.drop_last()) + (seq![Some(stack.last().kind)] + walk_all(
            stack.last().children,
        ))
    }
}

proof fn lemma_open_walk_depth(stack: Seq<NodeV>)
    ensures
        depth(open_walk(stack)) == stack.len(),
    decreases stack.len(),
{
    if stack.len() > 0 {
        let first: Seq<Option<NodeKindV>> = seq![Some(stack.last().kind)];
        let inner = walk_all(stack.last().children);
        lemma_open_walk_depth(stack.drop_last());
        lemma_walk_all_depth(stack.last().children);
        lemma_depth_concat(open_walk(stack.drop_last()), first + inner);
        lemma_depth_concat(first, inner);
        reveal_with_fuel(depth, 2);
        assert(first.drop_last() =~= Seq::empty());
    }
}

/// A sequence whose depth falls to zero or below before its end, or is not zero there, is no
/// walk.
proof fn lemma_not_walk(edges: Seq<Option<NodeKindV>>, k: int)
    requires
        0 <= k <= edges.len(),
        k == edges.len() && depth(edges) != 0 || 0 < k < edges.len() && depth(edges.take(k)) <= 0
            || edges.len() == 0 || depth(edges.take(k)) < 0,
    ensures
        !is_walk(edges),
{
    if is_walk(edges) {
        let node = tree_of(edges);
        lemma_walk_depth(node);
        assert(edges.take(edges.len() as int) =~= edges);
        assert(edges.take(0) =~= Seq::empty());
    }
}

/// Rebuilds the tree from the walk over it; `None` if the sequence is no walk over a tree.
pub fn build_tree(edges: Vec<Option<NodeKind>>) -> (r: Option<Node>)
    ensures
        r is Some <==> is_walk(edges.deep_view()),
        r matches Some(node) ==> walk(node.deep_view()) == edges.deep_view(),
        r matches Some(node) ==> node.deep_view() == tree_of(edges.deep_view()),
{
    let ghost all = edges.deep_view();
    let mut stack: Vec<Node> = Vec::new();
    let mut root: Option<Node> = None;
    assert(all.take(0) =~= Seq::empty());
    for edge in it: edges
        invariant
            it.seq() == edges@,
            all == edges.deep_view(),
            root is None ==> all.take(it.index() as int) == open_walk(stack.deep_view()),
            root matches Some(node) ==> stack@.len() == 0 && all.take(it.index() as int) == walk(
                node.deep_view(),
            ),
    {
        let ghost i = it.index() as int;
        let ghost before = stack.deep_view();
        proof {
            assert(all.take(i + 1) =~= all.take(i) + seq![edge.deep_view()]);
            lemma_open_walk_depth(before);
        }
        if root.is_some() {
            proof {
                lemma_walk_depth(root->0.deep_view());
                lemma_not_walk(all, i);
            }
            return None;
        }
        match edge {
            Some(kind) => {
                let node = Node { kind, children: Vec::new() };
                stack.push(node);
                proof {
                    let after = stack.deep_view();
                    assert(after.drop_last() =~= before);
                    assert(after.last().children =~= Seq::empty());
                    assert(open_walk(after) =~= open_walk(before) + seq![edge.deep_view()]);
                }
            },
            None => {
                match stack.pop() {
                    None => {
                        proof {
                            let one: Seq<Option<NodeKindV>> = seq![None];
                            lemma_depth_concat(all.take(i), one);
                            reveal_with_fuel(depth, 2);
                            assert(one.drop_last() =~= Seq::empty());
                            lemma_not_walk(all, i + 1);
                        }
                        return None;
                    },
                    Some(node) => {
                        let ghost rest = stack.deep_view();
                        assert(before.drop_last() =~= rest);
                        assert(before.last() == node.deep_view());
                        match stack.pop() {
                            None => {
                                assert(open_walk(rest) =~= Seq::empty());
                                assert(all.take(i + 1) =~= walk(node.deep_view()));
                                root = Some(node);
                            },
                            Some(mut parent) => {
                                let ghost old_parent = parent.deep_view();
                                let ghost done = node.deep_view();
                                let ghost base = stack.deep_view();
                                assert(rest.drop_last() =~= base);
                                assert(rest.last() == old_parent);
                                parent.children.push(node);
                                stack.push(parent);
                                proof {
                                    let after = stack.deep_view();
                                    assert(after.drop_last() =~= base);
                                    assert(after.last().children =~= old_parent.children.push(
                                        done,
                                    ));
                                    lemma_walk_all_push(old_parent.children, done);
                                    assert(open_walk(rest) == open_walk(base) + (seq![
                                        Some(old_parent.kind),
                                    ] + walk_all(old_parent.children)));
                                    assert(open_walk(after) == open_walk(base) + (seq![
                                        Some(old_parent.kind),
                                    ] + (walk_all(old_parent.children) + walk(done))));
                                    assert(open_walk(after) =~= open_walk(before) + seq![
                                        None,
                                    ]);
                                }
                            },
                        }
                    },
                }
            },
        }
    }
    proof {
        assert(all.take(all.len() as int) =~= all);
        lemma_open_walk_depth(stack.deep_view());
        if root is None {
            lemma_not_walk(all, all.len() as int);
        } else {
            law_tree_of_walk(root->0.deep_view());
        }
    }
    root
}

/// The walk over a tree starts at its root and ends there, and between these it goes over the
/// children, one after the other.
pub proof fn law_walk_goes_over_the_children(node: NodeV, a: Seq<NodeV>, b: Seq<NodeV>)
    ensures
        walk(node).len() == walk_all(node.children).len() + 2,
        walk(node)[0] == Some(node.kind),
        walk(node).last() is None,
        walk(node).subrange(1, walk(node).len() - 1) == walk_all(node.children),
        walk_all(a + b) == walk_all(a) + walk_all(b),
        a.len() == 1 ==> walk_all(a) == walk(a[0]),
        walk_all(Seq::empty()) == Seq::<Option<NodeKindV>>::empty(),
{
    assert(walk(node).subrange(1, walk(node).len() - 1) =~= walk_all(node.children));
    lemma_walk_all_concat(a, b);
    if a.len() == 1 {
        let none = a.subrange(1, a.len() as int);
        assert(walk_all(none) =~= Seq::empty());
        assert(walk_all(a) == walk(a[0]) + walk_all(none));
        assert(walk_all(a) =~= walk(a[0]));
    }
}

proof fn lemma_walk_all_concat(a: Seq<NodeV>, b: Seq<NodeV>)
    ensures
        walk_all(a + b) == walk_all(a) + walk_all(b),
    decreases b.len(),
{
    if b.len() == 0 {
        assert(a + b =~= a);
        assert(walk_all(a) + walk_all(b) =~= walk_all(a));
    } else {
        let less = b.drop_last();
        lemma_walk_all_concat(a, less);
        lemma_walk_all_push(less, b.last());
        lemma_walk_all_push(a + less, b.last());
        assert(less.push(b.last()) =~= b);
        assert((a + less).push(b.last()) =~= a + b);
        assert(walk_all(a + b) =~= walk_all(a) + walk_all(b));
    }
}

} // verus!
