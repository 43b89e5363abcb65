//! The range expander: one transformed copy of the body per integer in
//! the half-open range, spliced together in ascending order.

use vstd::prelude::*;

use crate::parse::{
    bound_ok, bound_val, rejects_with, shape_ok, spec_body, spec_placeholder, ExpandError,
    Invocation,
};
use crate::transform::{transform_nodes, transform_tokens};
use crate::tree::{lemma_nodes_view_add, nodes_view, Node, TreeV};

verus! {

/// The expansion of `body` over the integers of `[start, end)`: the
/// transformed copies concatenated in ascending order, and the empty
/// sequence when the range is empty or reversed.
pub open spec fn expand_range(body: Seq<TreeV>, ph: Seq<u8>, start: int, end: int) -> Seq<TreeV>
    decreases end - start,
{
    if start >= end {
        Seq::empty()
    } else {
        transform_nodes(body, ph, start) + expand_range(body, ph, start + 1, end)
    }
}

/// Extending the range by one more integer appends one more copy.
pub proof fn lemma_expand_range_snoc(body: Seq<TreeV>, ph: Seq<u8>, start: int, k: int)
    requires
        start <= k,
    ensures
        expand_range(body, ph, start, k + 1) == expand_range(body, ph, start, k) + transform_nodes(
            body,
            ph,
            k,
        ),
    decreases k - start,
{
    if start == k {
        assert(expand_range(body, ph, k + 1, k + 1) == Seq::<TreeV>::empty());
        assert(expand_range(body, ph, k, k + 1) == transform_nodes(body, ph, k) + expand_range(
            body,
            ph,
            k + 1,
            k + 1,
        ));
        assert(expand_range(body, ph, start, k + 1) =~= expand_range(body, ph, start, k)
            + transform_nodes(body, ph, k));
    } else {
        lemma_expand_range_snoc(body, ph, start + 1, k);
        assert(expand_range(body, ph, start, k + 1) =~= expand_range(body, ph, start, k)
            + transform_nodes(body, ph, k));
    }
}

impl Invocation {
    /// Expands the invocation: for each integer `n` of `[start, end)` in
    /// ascending order, one substituted copy of the body, all spliced
    /// into one flat sequence with no added delimiters; the empty
    /// sequence when `start >= end`.
    pub fn expand(&self) -> (r: Vec<Node>)
        ensures
            nodes_view(r@) == expand_range(
                nodes_view(self.body@),
                self.placeholder@,
                self.start as int,
                self.end as int,
            ),
    {
        let mut out: Vec<Node> = Vec::new();
        if self.start >= self.end {
            proof {
                assert(nodes_view(out@) =~= expand_range(
                    nodes_view(self.body@),
                    self.placeholder@,
                    self.start as int,
                    self.end as int,
                ));
            }
            return out;
        }
        let mut k: i64 = self.start;
        proof {
            assert(nodes_view(out@) =~= expand_range(
                nodes_view(self.body@),
                self.placeholder@,
                self.start as int,
                self.start as int,
            ));
        }
        while k < self.end
            invariant
                self.start <= k <= self.end,
                nodes_view(out@) == expand_range(
                    nodes_view(self.body@),
                    self.placeholder@,
                    self.start as int,
                    k as int,
                ),
            decreases self.end - k,
        {
            let mut piece = transform_tokens(&self.body, &self.placeholder, k);
            proof {
                lemma_nodes_view_add(out@, piece@);
                lemma_expand_range_snoc(
                    nodes_view(self.body@),
                    self.placeholder@,
                    self.start as int,
                    k as int,
                );
            }
            out.append(&mut piece);
            k = k + 1;
        }
        out
    }
}

/// The output a well-formed invocation sequence is owed: the expansion
/// of its body over its range for its placeholder.
pub open spec fn spec_expansion(ts: Seq<TreeV>) -> Seq<TreeV> {
    expand_range(spec_body(ts), spec_placeholder(ts), bound_val(ts[2]), bound_val(ts[5]))
}

/// Parses and expands a raw invocation sequence in one step: exactly the
/// errors of `Invocation::parse`, and on success exactly the expansion
/// `spec_expansion` of the input.
pub fn expand_invocation(ts: &Vec<Node>) -> (r: Result<Vec<Node>, ExpandError>)
    ensures
        match r {
            Ok(out) => shape_ok(nodes_view(ts@)) && bound_ok(nodes_view(ts@)[2]) && bound_ok(
                nodes_view(ts@)[5],
            ) && nodes_view(out@) == spec_expansion(nodes_view(ts@)),
            Err(e) => rejects_with(nodes_view(ts@), e),
        },
{
    let inv = match Invocation::parse(ts) {
        Ok(inv) => inv,
        Err(e) => {
            return Err(e);
        },
    };
    Ok(inv.expand())
}

} // verus!
