//! The general laws of the expander, each proved once and for all:
//! how many copies an expansion holds and in what order, what an empty
//! range yields, determinism, and how single nodes fare under one
//! substitution pass.

use vstd::prelude::*;

use crate::expand::expand_range;
use crate::num::dec_i;
use crate::transform::{
    is_placeholder, marker_text, transform_from, transform_nodes,
};
use crate::tree::{Delim, LeafKind, TreeV};

verus! {

/// The per-iteration outputs of an expansion, in ascending order of the
/// iteration integer: `count` transformed copies of `body`, the one for
/// `start + k` at position `k`.
pub open spec fn iteration_copies(body: Seq<TreeV>, ph: Seq<u8>, start: int, count: nat) -> Seq<
    Seq<TreeV>,
> {
    Seq::new(count, |k: int| transform_nodes(body, ph, start + k))
}

/// A valid expansion over `[start, end)` is exactly the concatenation of
/// `end - start` substituted copies of the body, in ascending order of
/// the iteration integer.
pub proof fn lemma_expansion_is_ordered_copies(body: Seq<TreeV>, ph: Seq<u8>, start: int, end: int)
    requires
        start <= end,
    ensures
        iteration_copies(body, ph, start, (end - start) as nat).len() == end - start,
        expand_range(body, ph, start, end) == iteration_copies(
            body,
            ph,
            start,
            (end - start) as nat,
        ).flatten(),
    decreases end - start,
{
    let copies = iteration_copies(body, ph, start, (end - start) as nat);
    if start == end {
        assert(copies =~= Seq::<Seq<TreeV>>::empty());
        assert(copies.flatten() == Seq::<TreeV>::empty());
    } else {
        lemma_expansion_is_ordered_copies(body, ph, start + 1, end);
        let rest = iteration_copies(body, ph, start + 1, (end - start - 1) as nat);
        assert(copies.drop_first() =~~= rest);
        assert(copies.first() == transform_nodes(body, ph, start));
        assert(copies.flatten() == copies.first() + copies.drop_first().flatten());
        assert(expand_range(body, ph, start, end) == transform_nodes(body, ph, start)
            + expand_range(body, ph, start + 1, end));
    }
}

/// An empty or reversed range expands to the empty output, never to an
/// error.
pub proof fn lemma_empty_range(body: Seq<TreeV>, ph: Seq<u8>, start: int, end: int)
    requires
        start >= end,
    ensures
        expand_range(body, ph, start, end) == Seq::<TreeV>::empty(),
{
}

/// Expansion is referentially transparent: it is a pure function of the
/// body, the placeholder and the range, so two results of the same
/// invocation are identical. The executable expander's contract pins its
/// output to `expand_range`, so two of its runs agree node for node.
pub proof fn lemma_expansion_deterministic(
    body: Seq<TreeV>,
    ph: Seq<u8>,
    start: int,
    end: int,
    out1: Seq<TreeV>,
    out2: Seq<TreeV>,
)
    requires
        out1 == expand_range(body, ph, start, end),
        out2 == expand_range(body, ph, start, end),
    ensures
        out1 == out2,
{
}

/// A group keeps its delimiter through substitution: only its children
/// are transformed, and the group is never unwrapped or rewrapped.
pub proof fn lemma_group_delimiter_preserved(
    d: Delim,
    children: Seq<TreeV>,
    ph: Seq<u8>,
    n: int,
)
    ensures
        transform_nodes(seq![TreeV::Group { delim: d, children }], ph, n) == seq![
            TreeV::Group { delim: d, children: transform_nodes(children, ph, n) },
        ],
{
    let ts = seq![TreeV::Group { delim: d, children }];
    let g = TreeV::Group { delim: d, children: transform_nodes(children, ph, n) };
    assert(transform_from(ts, 1, ph, n, Seq::empty().push(g)) == Seq::empty().push(g));
    assert(Seq::empty().push(g) =~= seq![g]);
}

/// Fusion composes: a name, the fusion marker and the placeholder in a
/// row become the single name extended with the decimal text of the
/// iteration integer.
pub proof fn lemma_fusion_composes(prefix: Seq<u8>, ph: Seq<u8>, n: int)
    requires
        prefix != ph,
    ensures
        transform_nodes(
            seq![
                TreeV::Leaf { kind: LeafKind::Name, text: prefix },
                TreeV::Leaf { kind: LeafKind::Symbol, text: marker_text() },
                TreeV::Leaf { kind: LeafKind::Name, text: ph },
            ],
            ph,
            n,
        ) == seq![TreeV::Leaf { kind: LeafKind::Name, text: prefix + dec_i(n) }],
{
    let ts = seq![
        TreeV::Leaf { kind: LeafKind::Name, text: prefix },
        TreeV::Leaf { kind: LeafKind::Symbol, text: marker_text() },
        TreeV::Leaf { kind: LeafKind::Name, text: ph },
    ];
    let acc1 = Seq::empty().push(ts[0]);
    assert(transform_from(ts, 0, ph, n, Seq::empty()) == transform_from(ts, 1, ph, n, acc1));
    let fused = TreeV::Leaf { kind: LeafKind::Name, text: prefix + dec_i(n) };
    let acc2 = acc1.drop_last().push(
        TreeV::Leaf { kind: LeafKind::Name, text: crate::tree::leaf_text(acc1.last()) + dec_i(n) },
    );
    assert(transform_from(ts, 1, ph, n, acc1) == transform_from(ts, 3, ph, n, acc2));
    assert(transform_from(ts, 3, ph, n, acc2) == acc2);
    assert(acc2 =~= seq![fused]);
}

/// Every leaf that is not the placeholder and not a fusion marker
/// directly before the placeholder is passed through unchanged.
pub proof fn lemma_passthrough_unchanged(
    ts: Seq<TreeV>,
    i: int,
    ph: Seq<u8>,
    n: int,
    acc: Seq<TreeV>,
)
    requires
        0 <= i < ts.len(),
        ts[i] is Leaf,
        ts[i]->kind == LeafKind::Literal || (ts[i]->kind == LeafKind::Name && ts[i]->text != ph)
            || (ts[i]->kind == LeafKind::Symbol && !(ts[i]->text == marker_text() && i + 1
            < ts.len() && is_placeholder(ts[i + 1], ph))),
    ensures
        transform_from(ts, i, ph, n, acc) == transform_from(ts, i + 1, ph, n, acc.push(ts[i])),
{
}

} // verus!
