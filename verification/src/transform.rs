//! The substitution transformer: one left-to-right pass over a token
//! tree that replaces the placeholder with an integer literal and fuses
//! a marked name with the substituted value.

use vstd::prelude::*;

use crate::num::{dec_i, i64_to_dec};
use crate::tree::{
    clone_node, bytes_eq, is_leaf_of, is_leaf_with, leaf_text, lemma_children_view_is_nodes_view,
    lemma_nodes_view_drop_last, lemma_nodes_view_push, node_is_leaf_of, node_is_leaf_with,
    node_view, nodes_view, LeafKind, Node, TreeV,
};

verus! {

/// The text of the fusion marker, the single symbol `~`.
pub open spec fn marker_text() -> Seq<u8> {
    seq![126u8]
}

/// `t` is the fusion marker: a symbol leaf reading `~`.
pub open spec fn is_fusion_marker(t: TreeV) -> bool {
    is_leaf_with(t, LeafKind::Symbol, marker_text())
}

/// `t` is an occurrence of the placeholder `ph`.
pub open spec fn is_placeholder(t: TreeV, ph: Seq<u8>) -> bool {
    is_leaf_with(t, LeafKind::Name, ph)
}

/// `t` is a name leaf of any text.
pub open spec fn is_name_leaf(t: TreeV) -> bool {
    is_leaf_of(t, LeafKind::Name)
}

/// One pass of substitution over `ts` from position `i` on, with the
/// nodes already emitted in `acc`. Each node is handled by the first
/// applicable rule: a group is rebuilt around its transformed children;
/// a fusion marker followed by the placeholder, with a name leaf as the
/// previously emitted node, replaces that name by the name extended with
/// the decimal text of `n`; a bare placeholder becomes a literal leaf
/// holding that text; everything else is passed through unchanged (a
/// marker whose fusion cannot apply stays an ordinary symbol).
pub open spec fn transform_from(ts: Seq<TreeV>, i: int, ph: Seq<u8>, n: int, acc: Seq<TreeV>) -> Seq<
    TreeV,
>
    decreases ts, ts.len() - i,
{
    if i < 0 || i >= ts.len() {
        acc
    } else if ts[i] is Group {
        transform_from(
            ts,
            i + 1,
            ph,
            n,
            acc.push(
                TreeV::Group {
                    delim: ts[i]->delim,
                    children: transform_from(ts[i]->children, 0, ph, n, Seq::empty()),
                },
            ),
        )
    } else if is_fusion_marker(ts[i]) && i + 1 < ts.len() && is_placeholder(ts[i + 1], ph)
        && acc.len() > 0 && is_name_leaf(acc.last()) {
        transform_from(
            ts,
            i + 2,
            ph,
            n,
            acc.drop_last().push(
                TreeV::Leaf { kind: LeafKind::Name, text: leaf_text(acc.last()) + dec_i(n) },
            ),
        )
    } else if is_placeholder(ts[i], ph) {
        transform_from(
            ts,
            i + 1,
            ph,
            n,
            acc.push(TreeV::Leaf { kind: LeafKind::Literal, text: dec_i(n) }),
        )
    } else {
        transform_from(ts, i + 1, ph, n, acc.push(ts[i]))
    }
}

/// One full substitution pass over `ts` for the iteration integer `n`.
pub open spec fn transform_nodes(ts: Seq<TreeV>, ph: Seq<u8>, n: int) -> Seq<TreeV> {
    transform_from(ts, 0, ph, n, Seq::empty())
}

/// Decides whether `t` is the fusion marker.
fn node_is_fusion_marker(t: &Node) -> (r: bool)
    ensures
        r == is_fusion_marker(t@),
{
    match t {
        Node::Leaf { kind, text } => {
            let r = *kind == LeafKind::Symbol && text.len() == 1 && text[0] == 126;
            proof {
                if r {
                    assert(text@ =~= marker_text());
                }
                if text@ == marker_text() {
                    assert(text@.len() == 1 && text@[0] == 126);
                }
            }
            r
        },
        Node::Group { .. } => false,
    }
}

/// The executable mirror of `transform_from`: transforms `ts` from
/// position `i` on, extending the already emitted `acc`.
fn transform_step(ts: &Vec<Node>, i: usize, ph: &Vec<u8>, n: i64, acc: Vec<Node>) -> (r: Vec<Node>)
    ensures
        nodes_view(r@) == transform_from(nodes_view(ts@), i as int, ph@, n as int, nodes_view(acc@)),
    decreases ts@, ts@.len() - i,
{
    if i >= ts.len() {
        return acc;
    }
    let node = &ts[i];
    proof {
        assert(nodes_view(ts@)[i as int] == node_view(*node));
    }
    match node {
        Node::Group { delim, children } => {
            proof {
                assert(decreases_to!(ts@ => ts@[i as int]->children@));
                assert(ts@[i as int]->children@ == children@);
            }
            let sub = transform_step(children, 0, ph, n, Vec::new());
            let g = Node::Group { delim: *delim, children: sub };
            let mut acc2 = acc;
            acc2.push(g);
            proof {
                lemma_children_view_is_nodes_view(children@);
                lemma_children_view_is_nodes_view(sub@);
                assert(nodes_view(Seq::<Node>::empty()) =~= Seq::<TreeV>::empty());
                assert(node_view(g) == (TreeV::Group {
                    delim: *delim,
                    children: transform_from(
                        node_view(*node)->children,
                        0,
                        ph@,
                        n as int,
                        Seq::empty(),
                    ),
                }));
                lemma_nodes_view_push(acc@, g);
            }
            transform_step(ts, i + 1, ph, n, acc2)
        },
        Node::Leaf { kind, text } => {
            let fusing = node_is_fusion_marker(node) && i + 1 < ts.len() && node_is_leaf_with(
                &ts[i + 1],
                LeafKind::Name,
                ph,
            ) && acc.len() > 0 && node_is_leaf_of(&acc[acc.len() - 1], LeafKind::Name);
            proof {
                assert(nodes_view(acc@).len() == acc@.len());
                if acc@.len() > 0 {
                    assert(nodes_view(acc@).last() == node_view(acc@[acc@.len() - 1]));
                }
                if i + 1 < ts.len() {
                    assert(nodes_view(ts@)[i + 1] == node_view(ts@[i + 1]));
                }
            }
            if fusing {
                let mut acc2 = acc;
                let popped = acc2.pop();
                match popped {
                    Some(last) => {
                        match last {
                            Node::Leaf { kind: _, text: t } => {
                                let mut fused_text = t;
                                let mut suffix = i64_to_dec(n);
                                fused_text.append(&mut suffix);
                                let fused = Node::Leaf { kind: LeafKind::Name, text: fused_text };
                                acc2.push(fused);
                                proof {
                                    lemma_nodes_view_drop_last(acc@);
                                    lemma_nodes_view_push(acc@.drop_last(), fused);
                                }
                                transform_step(ts, i + 2, ph, n, acc2)
                            },
                            Node::Group { .. } => {
                                proof {
                                    assert(is_name_leaf(node_view(last)));
                                    assert(false);
                                }
                                Vec::new()
                            },
                        }
                    },
                    None => {
                        proof {
                            assert(false);
                        }
                        Vec::new()
                    },
                }
            } else if *kind == LeafKind::Name && bytes_eq(text, ph) {
                let lit = Node::Leaf { kind: LeafKind::Literal, text: i64_to_dec(n) };
                let mut acc2 = acc;
                acc2.push(lit);
                proof {
                    lemma_nodes_view_push(acc@, lit);
                }
                transform_step(ts, i + 1, ph, n, acc2)
            } else {
                let copy = clone_node(node);
                let mut acc2 = acc;
                acc2.push(copy);
                proof {
                    lemma_nodes_view_push(acc@, copy);
                }
                transform_step(ts, i + 1, ph, n, acc2)
            }
        },
    }
}

/// Transforms a whole token sequence for the iteration integer `n`:
/// the result is the substitution pass of `transform_nodes` over the
/// view of `ts`.
pub fn transform_tokens(ts: &Vec<Node>, ph: &Vec<u8>, n: i64) -> (r: Vec<Node>)
    ensures
        nodes_view(r@) == transform_nodes(nodes_view(ts@), ph@, n as int),
{
    let r = transform_step(ts, 0, ph, n, Vec::new());
    proof {
        assert(nodes_view(Seq::<Node>::empty()) =~= Seq::<TreeV>::empty());
    }
    r
}

} // verus!
