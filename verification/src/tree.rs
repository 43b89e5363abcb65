//! The token-tree data model: textual leaves and delimited groups, with
//! their mathematical views and the executable helpers the rest of the
//! library builds on.

use vstd::prelude::*;

verus! {

/// The role a leaf plays: an identifier-like name, a literal, or a
/// punctuation symbol. Only `Name` leaves take part in substitution and
/// fusion.
#[derive(Clone, Copy, PartialEq, Eq, Structural, Debug)]
pub enum LeafKind {
    Name,
    Literal,
    Symbol,
}

/// The bracketing style of a group. It is carried through expansion
/// unchanged; `Bare` marks a group with no visible delimiter.
#[derive(Clone, Copy, PartialEq, Eq, Structural, Debug)]
pub enum Delim {
    Paren,
    Brace,
    Bracket,
    Bare,
}

/// One node of a token tree: a textual leaf or a delimited group of
/// child nodes. Trees are finite and every group owns its children.
#[derive(PartialEq, Eq, Debug)]
pub enum Node {
    Leaf { kind: LeafKind, text: Vec<u8> },
    Group { delim: Delim, children: Vec<Node> },
}

/// The mathematical shape of a node; every contract speaks of this.
#[verifier::ext_equal]
pub enum TreeV {
    Leaf { kind: LeafKind, text: Seq<u8> },
    Group { delim: Delim, children: Seq<TreeV> },
}

/// The abstraction of one executable node.
pub open spec fn node_view(n: Node) -> TreeV
    decreases n, 1int,
{
    match n {
        Node::Leaf { kind, text } => TreeV::Leaf { kind, text: text@ },
        Node::Group { delim, .. } => TreeV::Group {
            delim,
            children: children_view(n->children@),
        },
    }
}

/// The abstraction of a sequence of executable nodes, built back to front.
pub open spec fn children_view(ns: Seq<Node>) -> Seq<TreeV>
    decreases ns, 0int,
{
    if ns.len() == 0 {
        Seq::empty()
    } else {
        children_view(ns.subrange(0, ns.len() - 1)).push(node_view(ns[ns.len() - 1]))
    }
}

/// `children_view` agrees with the pointwise view `nodes_view`.
pub broadcast proof fn lemma_children_view_is_nodes_view(ns: Seq<Node>)
    ensures
        #[trigger] children_view(ns) == nodes_view(ns),
    decreases ns.len(),
{
    if ns.len() > 0 {
        lemma_children_view_is_nodes_view(ns.subrange(0, ns.len() - 1));
        assert(children_view(ns) =~= nodes_view(ns));
    } else {
        assert(children_view(ns) =~= nodes_view(ns));
    }
}

impl View for Node {
    type V = TreeV;

    open spec fn view(&self) -> TreeV {
        node_view(*self)
    }
}

/// The abstraction of a sequence of executable nodes.
pub open spec fn nodes_view(ns: Seq<Node>) -> Seq<TreeV> {
    Seq::new(ns.len(), |i: int| node_view(ns[i]))
}

/// `t` is a leaf of kind `k`.
pub open spec fn is_leaf_of(t: TreeV, k: LeafKind) -> bool {
    t is Leaf && t->kind == k
}

/// The text of a leaf; the empty sequence on a group.
pub open spec fn leaf_text(t: TreeV) -> Seq<u8> {
    if t is Leaf {
        t->text
    } else {
        Seq::empty()
    }
}

/// `t` is a leaf of kind `k` whose text is exactly `s`.
pub open spec fn is_leaf_with(t: TreeV, k: LeafKind, s: Seq<u8>) -> bool {
    is_leaf_of(t, k) && leaf_text(t) == s
}

/// `t` is a group bracketed by `d`.
pub open spec fn is_group_of(t: TreeV, d: Delim) -> bool {
    t is Group && t->delim == d
}

/// The children of a group; the empty sequence on a leaf.
pub open spec fn group_children(t: TreeV) -> Seq<TreeV> {
    if t is Group {
        t->children
    } else {
        Seq::empty()
    }
}

/// Appending a node appends its view.
pub proof fn lemma_nodes_view_push(s: Seq<Node>, x: Node)
    ensures
        nodes_view(s.push(x)) == nodes_view(s).push(node_view(x)),
{
    assert(nodes_view(s.push(x)) =~= nodes_view(s).push(node_view(x)));
}

/// Dropping the last node drops the last view.
pub proof fn lemma_nodes_view_drop_last(s: Seq<Node>)
    requires
        s.len() > 0,
    ensures
        nodes_view(s.drop_last()) == nodes_view(s).drop_last(),
{
    assert(nodes_view(s.drop_last()) =~= nodes_view(s).drop_last());
}

/// Concatenating node sequences concatenates their views.
pub proof fn lemma_nodes_view_add(a: Seq<Node>, b: Seq<Node>)
    ensures
        nodes_view(a + b) == nodes_view(a) + nodes_view(b),
{
    assert(nodes_view(a + b) =~= nodes_view(a) + nodes_view(b));
}

/// Byte-for-byte equality of two texts.
pub fn bytes_eq(a: &Vec<u8>, b: &Vec<u8>) -> (r: bool)
    ensures
        r == (a@ == b@),
{
    if a.len() != b.len() {
        return false;
    }
    let mut i: usize = 0;
    while i < a.len()
        invariant
            i <= a.len(),
            a@.len() == b@.len(),
            forall|j: int| 0 <= j < i ==> a@[j] == b@[j],
        decreases a.len() - i,
    {
        if a[i] != b[i] {
            return false;
        }
        i = i + 1;
    }
    proof {
        assert(a@ =~= b@);
    }
    true
}

/// An independent copy of a text.
pub fn clone_bytes(a: &Vec<u8>) -> (r: Vec<u8>)
    ensures
        r@ == a@,
{
    let mut r: Vec<u8> = Vec::new();
    let mut i: usize = 0;
    while i < a.len()
        invariant
            i <= a.len(),
            r@ =~= a@.subrange(0, i as int),
        decreases a.len() - i,
    {
        r.push(a[i]);
        i = i + 1;
    }
    proof {
        assert(r@ =~= a@);
    }
    r
}

/// Decides `is_leaf_of` on an executable node.
pub fn node_is_leaf_of(t: &Node, k: LeafKind) -> (r: bool)
    ensures
        r == is_leaf_of(t@, k),
{
    match t {
        Node::Leaf { kind, .. } => *kind == k,
        Node::Group { .. } => false,
    }
}

/// Decides `is_leaf_with` on an executable node.
pub fn node_is_leaf_with(t: &Node, k: LeafKind, s: &Vec<u8>) -> (r: bool)
    ensures
        r == is_leaf_with(t@, k, s@),
{
    match t {
        Node::Leaf { kind, text } => *kind == k && bytes_eq(text, s),
        Node::Group { .. } => false,
    }
}

/// Decides `is_group_of` on an executable node.
pub fn node_is_group_of(t: &Node, d: Delim) -> (r: bool)
    ensures
        r == is_group_of(t@, d),
{
    match t {
        Node::Group { delim, .. } => *delim == d,
        Node::Leaf { .. } => false,
    }
}

/// An independent deep copy of one node.
pub fn clone_node(t: &Node) -> (r: Node)
    ensures
        r@ == t@,
    decreases *t,
{
    match t {
        Node::Leaf { kind, text } => Node::Leaf { kind: *kind, text: clone_bytes(text) },
        Node::Group { delim, children } => {
            let sub = clone_nodes(children);
            let r = Node::Group { delim: *delim, children: sub };
            proof {
                lemma_children_view_is_nodes_view(sub@);
                lemma_children_view_is_nodes_view(children@);
                assert(r@->children =~= t@->children);
                assert(r@ =~= t@);
            }
            r
        },
    }
}

/// An independent deep copy of a sequence of nodes.
pub fn clone_nodes(ns: &Vec<Node>) -> (r: Vec<Node>)
    ensures
        nodes_view(r@) == nodes_view(ns@),
    decreases ns@,
{
    let mut r: Vec<Node> = Vec::new();
    let mut i: usize = 0;
    while i < ns.len()
        invariant
            i <= ns.len(),
            r@.len() == i,
            forall|j: int| 0 <= j < i ==> node_view(r@[j]) == node_view(ns@[j]),
        decreases ns@.len() - i,
    {
        let c = clone_node(&ns[i]);
        r.push(c);
        i = i + 1;
    }
    proof {
        assert(nodes_view(r@) =~= nodes_view(ns@));
    }
    r
}

impl Clone for Node {
    /// An independent deep copy; the copy has the same view.
    fn clone(&self) -> (r: Node)
        ensures
            r@ == self@,
    {
        clone_node(self)
    }
}

} // verus!
