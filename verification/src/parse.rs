//! The invocation parser: recognizes the fixed shape
//! `name in start..end { body }` on a raw token sequence and yields the
//! structured invocation, or says precisely which token offends.

use vstd::prelude::*;

use crate::num::{fits_i64, int_text_val, is_int_text, parse_i64};
use crate::tree::{
    clone_bytes, clone_nodes, group_children, is_group_of, is_leaf_of, is_leaf_with, leaf_text,
    lemma_children_view_is_nodes_view, node_is_group_of, node_is_leaf_of, node_is_leaf_with,
    nodes_view, Delim, LeafKind, Node, TreeV,
};
use crate::transform::is_name_leaf;

verus! {

/// One parsed invocation: the placeholder name, the two range bounds
/// (half-open, `start` inclusive and `end` exclusive), and the body
/// template, already unwrapped from its braces. A reversed or empty
/// range is a valid invocation that simply expands to nothing.
pub struct Invocation {
    pub placeholder: Vec<u8>,
    pub start: i64,
    pub end: i64,
    pub body: Vec<Node>,
}

/// Why an invocation was rejected; `at` is the index of the offending
/// token in the input sequence.
#[derive(Clone, Copy, PartialEq, Eq, Structural, Debug)]
pub enum ExpandError {
    /// The token sequence does not match `name in start..end { body }`.
    MalformedInvocation { at: usize },
    /// A range bound is not the text of an integer an `i64` can hold.
    InvalidRangeBound { at: usize },
}

/// The text of the range keyword, `in`.
pub open spec fn kw_in_text() -> Seq<u8> {
    seq![105u8, 110u8]
}

/// The text of one half of the range operator, `.`.
pub open spec fn dot_text() -> Seq<u8> {
    seq![46u8]
}

/// The token expected at position `i` of an invocation is present.
pub open spec fn pos_ok(ts: Seq<TreeV>, i: int) -> bool {
    i < ts.len() && if i == 0 {
        is_name_leaf(ts[0])
    } else if i == 1 {
        is_leaf_with(ts[1], LeafKind::Name, kw_in_text())
    } else if i == 2 {
        is_leaf_of(ts[2], LeafKind::Literal)
    } else if i == 3 {
        is_leaf_with(ts[3], LeafKind::Symbol, dot_text())
    } else if i == 4 {
        is_leaf_with(ts[4], LeafKind::Symbol, dot_text())
    } else if i == 5 {
        is_leaf_of(ts[5], LeafKind::Literal)
    } else if i == 6 {
        is_group_of(ts[6], Delim::Brace)
    } else {
        false
    }
}

/// `ts` matches the invocation grammar
/// `Name "in" Literal "." "." Literal BraceGroup`, with nothing after.
pub open spec fn shape_ok(ts: Seq<TreeV>) -> bool {
    ts.len() == 7 && pos_ok(ts, 0) && pos_ok(ts, 1) && pos_ok(ts, 2) && pos_ok(ts, 3) && pos_ok(
        ts,
        4,
    ) && pos_ok(ts, 5) && pos_ok(ts, 6)
}

/// The first position at which a malformed sequence leaves the grammar;
/// 7 when the first seven tokens are right but trailing tokens follow.
pub open spec fn malformed_at(ts: Seq<TreeV>) -> int {
    if !pos_ok(ts, 0) {
        0
    } else if !pos_ok(ts, 1) {
        1
    } else if !pos_ok(ts, 2) {
        2
    } else if !pos_ok(ts, 3) {
        3
    } else if !pos_ok(ts, 4) {
        4
    } else if !pos_ok(ts, 5) {
        5
    } else if !pos_ok(ts, 6) {
        6
    } else {
        7
    }
}

/// A bound literal denotes an integer that an `i64` can hold.
pub open spec fn bound_ok(t: TreeV) -> bool {
    is_int_text(leaf_text(t)) && fits_i64(int_text_val(leaf_text(t)))
}

/// The integer a bound literal denotes.
pub open spec fn bound_val(t: TreeV) -> int {
    int_text_val(leaf_text(t))
}

/// The placeholder name of a well-shaped invocation.
pub open spec fn spec_placeholder(ts: Seq<TreeV>) -> Seq<u8> {
    leaf_text(ts[0])
}

/// The body template of a well-shaped invocation.
pub open spec fn spec_body(ts: Seq<TreeV>) -> Seq<TreeV> {
    group_children(ts[6])
}

/// The error `e` is the one owed for the token sequence `ts`: the first
/// grammar mismatch, or else the first bound whose text no `i64` holds.
pub open spec fn rejects_with(ts: Seq<TreeV>, e: ExpandError) -> bool {
    match e {
        ExpandError::MalformedInvocation { at } => !shape_ok(ts) && at == malformed_at(ts),
        ExpandError::InvalidRangeBound { at } => shape_ok(ts) && ((at == 2 && !bound_ok(ts[2]))
            || (at == 5 && bound_ok(ts[2]) && !bound_ok(ts[5]))),
    }
}

impl Invocation {
    /// Parses a raw token sequence as an invocation. Fails with
    /// `MalformedInvocation` at the first token that leaves the grammar,
    /// and with `InvalidRangeBound` at the first bound literal whose text
    /// is not an integer an `i64` can hold; succeeds otherwise, with the
    /// placeholder, the two bounds, and the body of the brace group.
    pub fn parse(ts: &Vec<Node>) -> (r: Result<Invocation, ExpandError>)
        ensures
            match r {
                Ok(inv) => shape_ok(nodes_view(ts@)) && bound_ok(nodes_view(ts@)[2]) && bound_ok(
                    nodes_view(ts@)[5],
                ) && inv.placeholder@ == spec_placeholder(nodes_view(ts@)) && inv.start as int
                    == bound_val(nodes_view(ts@)[2]) && inv.end as int == bound_val(
                    nodes_view(ts@)[5],
                ) && nodes_view(inv.body@) == spec_body(nodes_view(ts@)),
                Err(e) => rejects_with(nodes_view(ts@), e),
            },
    {
        let ghost tsv = nodes_view(ts@);
        if ts.len() < 1 || !node_is_leaf_of(&ts[0], LeafKind::Name) {
            return Err(ExpandError::MalformedInvocation { at: 0 });
        }
        let mut kw: Vec<u8> = Vec::new();
        kw.push(105);
        kw.push(110);
        proof {
            assert(kw@ =~= kw_in_text());
        }
        if ts.len() < 2 || !node_is_leaf_with(&ts[1], LeafKind::Name, &kw) {
            return Err(ExpandError::MalformedInvocation { at: 1 });
        }
        if ts.len() < 3 || !node_is_leaf_of(&ts[2], LeafKind::Literal) {
            return Err(ExpandError::MalformedInvocation { at: 2 });
        }
        let mut dot: Vec<u8> = Vec::new();
        dot.push(46);
        proof {
            assert(dot@ =~= dot_text());
        }
        if ts.len() < 4 || !node_is_leaf_with(&ts[3], LeafKind::Symbol, &dot) {
            return Err(ExpandError::MalformedInvocation { at: 3 });
        }
        if ts.len() < 5 || !node_is_leaf_with(&ts[4], LeafKind::Symbol, &dot) {
            return Err(ExpandError::MalformedInvocation { at: 4 });
        }
        if ts.len() < 6 || !node_is_leaf_of(&ts[5], LeafKind::Literal) {
            return Err(ExpandError::MalformedInvocation { at: 5 });
        }
        if ts.len() < 7 || !node_is_group_of(&ts[6], Delim::Brace) {
            return Err(ExpandError::MalformedInvocation { at: 6 });
        }
        if ts.len() != 7 {
            return Err(ExpandError::MalformedInvocation { at: 7 });
        }
        let start_opt = match &ts[2] {
            Node::Leaf { text, .. } => parse_i64(text),
            Node::Group { .. } => {
                proof {
                    assert(false);
                }
                None
            },
        };
        let start = match start_opt {
            Some(v) => v,
            None => {
                return Err(ExpandError::InvalidRangeBound { at: 2 });
            },
        };
        let end_opt = match &ts[5] {
            Node::Leaf { text, .. } => parse_i64(text),
            Node::Group { .. } => {
                proof {
                    assert(false);
                }
                None
            },
        };
        let end = match end_opt {
            Some(v) => v,
            None => {
                return Err(ExpandError::InvalidRangeBound { at: 5 });
            },
        };
        let placeholder = match &ts[0] {
            Node::Leaf { text, .. } => clone_bytes(text),
            Node::Group { .. } => {
                proof {
                    assert(false);
                }
                Vec::new()
            },
        };
        let body = match &ts[6] {
            Node::Group { children, .. } => {
                proof {
                    lemma_children_view_is_nodes_view(children@);
                }
                clone_nodes(children)
            },
            Node::Leaf { .. } => {
                proof {
                    assert(false);
                }
                Vec::new()
            },
        };
        Ok(Invocation { placeholder, start, end, body })
    }
}

} // verus!
