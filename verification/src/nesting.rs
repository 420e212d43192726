//! Nesting: what it means for a token list, and for the visitor calls of a
//! record, to hold exactly one well-nested root element.

use vstd::prelude::*;
use crate::err::TokenError;
use crate::model::{
    NodeModel, CallModel, bind_node, bind_from, bind, emit_node, emit_from, document,
};
use crate::value::ValueModel;

verus! {

/// By how much a node changes the depth of nesting.
pub open spec fn delta(n: NodeModel) -> int {
    match n {
        NodeModel::Open { .. } => 1,
        NodeModel::Close => -1,
        _ => 0,
    }
}

/// The depth of nesting after the first `n` nodes.
pub open spec fn depth_after(nodes: Seq<NodeModel>, n: int) -> int
    decreases n,
{
    if n <= 0 {
        0
    } else {
        depth_after(nodes, n - 1) + delta(nodes[n - 1])
    }
}

/// The greatest depth of nesting that the first `n` nodes reach.
pub open spec fn peak(nodes: Seq<NodeModel>, n: int) -> int
    decreases n,
{
    if n <= 0 {
        0
    } else if depth_after(nodes, n) > peak(nodes, n - 1) {
        depth_after(nodes, n)
    } else {
        peak(nodes, n - 1)
    }
}

/// The depth after any prefix is at most the peak.
pub proof fn lemma_peak_bounds(nodes: Seq<NodeModel>, n: int, k: int)
    requires
        0 <= k <= n,
    ensures
        depth_after(nodes, k) <= peak(nodes, n),
        0 <= peak(nodes, n),
    decreases n,
{
    if n > 0 {
        if k < n {
            lemma_peak_bounds(nodes, n - 1, k);
        } else {
            lemma_peak_bounds(nodes, n - 1, n - 1);
        }
    }
}

/// The nodes are exactly one element: the first node opens it, it stays open
/// until the last node, and the last node closes it.
pub open spec fn single_root(nodes: Seq<NodeModel>) -> bool {
    &&& nodes.len() >= 2
    &&& nodes[0] is Open
    &&& depth_after(nodes, nodes.len() as int) == 0
    &&& forall|n: int| 0 < n < nodes.len() ==> #[trigger] depth_after(nodes, n) > 0
}

/// The nodes are the beginning of one element, read up to nesting depth
/// `depth`: nothing yet, or a root that has been open since the first node.
pub open spec fn open_prefix(nodes: Seq<NodeModel>, depth: int) -> bool {
    &&& depth == depth_after(nodes, nodes.len() as int)
    &&& nodes.len() > 0 ==> nodes[0] is Open
    &&& forall|n: int| 0 < n < nodes.len() ==> #[trigger] depth_after(nodes, n) > 0
}

/// The nodes `piece` may follow a prefix that stands at depth `depth`: they
/// never close more than is open, they keep the root open until their end,
/// and where nothing is open yet they start with an element.
pub open spec fn fits(piece: Seq<NodeModel>, depth: int, after: int) -> bool {
    &&& after == depth + depth_after(piece, piece.len() as int)
    &&& after >= 0
    &&& forall|k: int| 0 < k < piece.len() ==> depth + #[trigger] depth_after(piece, k) > 0
    &&& depth == 0 && piece.len() > 0 ==> piece[0] is Open
}

/// The depth after a prefix of `a` does not depend on what follows `a`.
pub proof fn lemma_depth_prefix(a: Seq<NodeModel>, b: Seq<NodeModel>, n: int)
    requires
        0 <= n <= a.len(),
    ensures
        depth_after(a + b, n) == depth_after(a, n),
    decreases n,
{
    if n > 0 {
        lemma_depth_prefix(a, b, n - 1);
        assert((a + b)[n - 1] == a[n - 1]);
    }
}

/// Depths add up over a concatenation.
pub proof fn lemma_depth_concat(a: Seq<NodeModel>, b: Seq<NodeModel>, n: int)
    requires
        0 <= n <= b.len(),
    ensures
        depth_after(a + b, a.len() + n) == depth_after(a, a.len() as int) + depth_after(b, n),
    decreases n,
{
    if n > 0 {
        lemma_depth_concat(a, b, n - 1);
        assert((a + b)[a.len() + n - 1] == b[n - 1]);
    } else {
        lemma_depth_prefix(a, b, a.len() as int);
    }
}

/// A prefix that is followed by a piece that fits it is a prefix again.
pub proof fn lemma_extend(acc: Seq<NodeModel>, depth: int, piece: Seq<NodeModel>, after: int)
    requires
        open_prefix(acc, depth),
        acc.len() > 0 ==> depth > 0,
        fits(piece, depth, after),
    ensures
        open_prefix(acc + piece, after),
{
    let all = acc + piece;
    lemma_depth_concat(acc, piece, piece.len() as int);
    assert forall|n: int| 0 < n < all.len() implies #[trigger] depth_after(all, n) > 0 by {
        if n <= acc.len() {
            lemma_depth_prefix(acc, piece, n);
        } else {
            lemma_depth_concat(acc, piece, n - acc.len());
        }
    }
    if all.len() > 0 {
        if acc.len() > 0 {
            assert(all[0] == acc[0]);
        } else {
            assert(all[0] == piece[0]);
            assert(depth == 0);
        }
    }
}

/// A prefix whose root is closed is one whole element.
pub proof fn lemma_closed_prefix(acc: Seq<NodeModel>)
    requires
        open_prefix(acc, 0),
        acc.len() > 0,
    ensures
        single_root(acc),
{
    reveal_with_fuel(depth_after, 2);
    assert(depth_after(acc, 1) == 1);
}

/// One whole element fits wherever an element may start.
pub proof fn lemma_root_fits(piece: Seq<NodeModel>, depth: int)
    requires
        single_root(piece),
        depth >= 0,
    ensures
        fits(piece, depth, depth),
{
}

/// What `bind_from` returns: the accumulated nodes, then each remaining node
/// bound, in order.
pub proof fn lemma_bind_from(
    nodes: Seq<NodeModel>,
    subs: Seq<ValueModel>,
    i: int,
    acc: Seq<NodeModel>,
)
    requires
        0 <= i <= nodes.len(),
        bind_from(nodes, subs, i, acc) is Ok,
    ensures
        bind_from(nodes, subs, i, acc).unwrap().len() == acc.len() + nodes.len() - i,
        forall|j: int|
            0 <= j < acc.len() ==> #[trigger] bind_from(nodes, subs, i, acc).unwrap()[j] == acc[j],
        forall|j: int|
            i <= j < nodes.len() ==> bind_node(nodes[j], subs) == Ok::<NodeModel, TokenError>(
                #[trigger] bind_from(nodes, subs, i, acc).unwrap()[acc.len() + j - i],
            ),
    decreases nodes.len() - i,
{
    if i < nodes.len() {
        let n = bind_node(nodes[i], subs).unwrap();
        let acc2 = acc.push(n);
        lemma_bind_from(nodes, subs, i + 1, acc2);
        let out = bind_from(nodes, subs, i, acc).unwrap();
        assert(out == bind_from(nodes, subs, i + 1, acc2).unwrap());
        assert forall|j: int| 0 <= j < acc.len() implies #[trigger] out[j] == acc[j] by {
            assert(acc2[j] == acc[j]);
        }
        assert forall|j: int| i <= j < nodes.len() implies bind_node(nodes[j], subs) == Ok::<
            NodeModel,
            TokenError,
        >(#[trigger] out[acc.len() + j - i]) by {
            if j == i {
                assert(out[acc.len() as int] == acc2[acc.len() as int]);
            } else {
                assert(out[acc2.len() + j - (i + 1)] == out[acc.len() + j - i]);
            }
        }
    }
}

/// Binding changes no node's effect on the depth, so the bound nodes nest as
/// the template's nodes do.
pub proof fn lemma_bind_depth(nodes: Seq<NodeModel>, subs: Seq<ValueModel>, n: int)
    requires
        bind(nodes, subs) is Ok,
        0 <= n <= nodes.len(),
    ensures
        depth_after(bind(nodes, subs).unwrap(), n) == depth_after(nodes, n),
    decreases n,
{
    if n > 0 {
        lemma_bind_depth(nodes, subs, n - 1);
        lemma_bind_from(nodes, subs, 0, Seq::empty());
        let out = bind(nodes, subs).unwrap();
        assert(bind_node(nodes[n - 1], subs) == Ok::<NodeModel, TokenError>(out[0 + (n - 1) - 0]));
    }
}

/// An instantiated template reaches the depth that the template reaches.
pub proof fn lemma_bind_peak(nodes: Seq<NodeModel>, subs: Seq<ValueModel>, n: int)
    requires
        bind(nodes, subs) is Ok,
        0 <= n <= nodes.len(),
    ensures
        peak(bind(nodes, subs).unwrap(), n) == peak(nodes, n),
    decreases n,
{
    if n > 0 {
        lemma_bind_peak(nodes, subs, n - 1);
        lemma_bind_depth(nodes, subs, n);
    }
}

/// An instantiated template is one whole element if the template is.
pub proof fn lemma_bind_single_root(nodes: Seq<NodeModel>, subs: Seq<ValueModel>)
    requires
        bind(nodes, subs) is Ok,
        single_root(nodes),
    ensures
        single_root(bind(nodes, subs).unwrap()),
{
    let out = bind(nodes, subs).unwrap();
    lemma_bind_from(nodes, subs, 0, Seq::empty());
    assert(bind_node(nodes[0], subs) == Ok::<NodeModel, TokenError>(out[0 + 0 - 0]));
    lemma_bind_depth(nodes, subs, nodes.len() as int);
    assert forall|n: int| 0 < n < out.len() implies #[trigger] depth_after(out, n) > 0 by {
        lemma_bind_depth(nodes, subs, n);
    }
}


/// By how much a visitor call changes the depth of nesting.
pub open spec fn call_delta(c: CallModel) -> int {
    match c {
        CallModel::OpenStartElement { .. } => 1,
        CallModel::CloseElement => -1,
        _ => 0,
    }
}

/// The depth of nesting after the first `n` calls.
pub open spec fn call_depth(calls: Seq<CallModel>, n: int) -> int
    decreases n,
{
    if n <= 0 {
        0
    } else {
        call_depth(calls, n - 1) + call_delta(calls[n - 1])
    }
}

/// The calls are those of one record: the start of the stream, exactly one
/// root element, and the end of the stream. Every element that is opened is
/// closed, in the order of nesting; the root opens right after the start of
/// the stream and closes right before its end.
pub open spec fn well_nested(calls: Seq<CallModel>) -> bool {
    &&& calls.len() >= 4
    &&& calls[0] is StartOfStream
    &&& calls[1] is OpenStartElement
    &&& calls[calls.len() - 1] is EndOfStream
    &&& forall|k: int|
        0 < k < calls.len() - 1 ==> !((#[trigger] calls[k]) is StartOfStream) && !(calls[k]
            is EndOfStream)
    &&& forall|n: int| 1 < n < calls.len() - 1 ==> #[trigger] call_depth(calls, n) > 0
    &&& call_depth(calls, calls.len() - 1) == 0
}

/// What `emit_from` returns: the accumulated calls, then the call of each
/// remaining node, in order.
pub proof fn lemma_emit_from(nodes: Seq<NodeModel>, i: int, acc: Seq<CallModel>)
    requires
        0 <= i <= nodes.len(),
        emit_from(nodes, i, acc) is Ok,
    ensures
        emit_from(nodes, i, acc).unwrap().len() == acc.len() + nodes.len() - i,
        forall|j: int|
            0 <= j < acc.len() ==> #[trigger] emit_from(nodes, i, acc).unwrap()[j] == acc[j],
        forall|j: int|
            i <= j < nodes.len() ==> emit_node(nodes[j]) == Ok::<CallModel, TokenError>(
                #[trigger] emit_from(nodes, i, acc).unwrap()[acc.len() + j - i],
            ),
    decreases nodes.len() - i,
{
    if i < nodes.len() {
        let c = emit_node(nodes[i]).unwrap();
        let acc2 = acc.push(c);
        lemma_emit_from(nodes, i + 1, acc2);
        let out = emit_from(nodes, i, acc).unwrap();
        assert(out == emit_from(nodes, i + 1, acc2).unwrap());
        assert forall|j: int| 0 <= j < acc.len() implies #[trigger] out[j] == acc[j] by {
            assert(acc2[j] == acc[j]);
        }
        assert forall|j: int| i <= j < nodes.len() implies emit_node(nodes[j]) == Ok::<
            CallModel,
            TokenError,
        >(#[trigger] out[acc.len() + j - i]) by {
            if j == i {
                assert(out[acc.len() as int] == acc2[acc.len() as int]);
            } else {
                assert(out[acc2.len() + j - (i + 1)] == out[acc.len() + j - i]);
            }
        }
    }
}

/// The calls of a record nest as its nodes do.
pub proof fn lemma_document_depth(nodes: Seq<NodeModel>, n: int)
    requires
        document(nodes) is Ok,
        0 <= n <= nodes.len(),
    ensures
        call_depth(document(nodes).unwrap(), n + 1) == depth_after(nodes, n),
    decreases n,
{
    let start = seq![CallModel::StartOfStream];
    let inner = emit_from(nodes, 0, start).unwrap();
    let calls = document(nodes).unwrap();
    lemma_emit_from(nodes, 0, start);
    reveal_with_fuel(call_depth, 2);
    if n > 0 {
        lemma_document_depth(nodes, n - 1);
        assert(emit_node(nodes[n - 1]) == Ok::<CallModel, TokenError>(inner[1 + (n - 1) - 0]));
        assert(calls[n] == inner[n]);
    } else {
        assert(inner[0] == start[0]);
        assert(calls[0] == inner[0]);
    }
}

/// The visitor calls of one whole element are well nested.
pub proof fn lemma_document_well_nested(nodes: Seq<NodeModel>)
    requires
        single_root(nodes),
        document(nodes) is Ok,
    ensures
        well_nested(document(nodes).unwrap()),
{
    let start = seq![CallModel::StartOfStream];
    let inner = emit_from(nodes, 0, start).unwrap();
    let calls = document(nodes).unwrap();
    lemma_emit_from(nodes, 0, start);
    assert(inner[0] == start[0]);
    assert(calls[0] == inner[0]);
    assert(emit_node(nodes[0]) == Ok::<CallModel, TokenError>(inner[1 + 0 - 0]));
    assert(calls[1] == inner[1]);
    assert forall|k: int| 0 < k < calls.len() - 1 implies !((#[trigger] calls[k])
        is StartOfStream) && !(calls[k] is EndOfStream) by {
        assert(emit_node(nodes[k - 1]) == Ok::<CallModel, TokenError>(inner[1 + (k - 1) - 0]));
        assert(calls[k] == inner[k]);
    }
    assert forall|n: int| 1 < n < calls.len() - 1 implies #[trigger] call_depth(calls, n) > 0 by {
        lemma_document_depth(nodes, n - 1);
    }
    lemma_document_depth(nodes, nodes.len() as int);
}

/// No prefix of the nodes nests deeper than `limit`.
pub open spec fn bounded(nodes: Seq<NodeModel>, limit: int) -> bool {
    forall|n: int| 0 <= n <= nodes.len() ==> #[trigger] depth_after(nodes, n) <= limit
}

/// Behind a prefix that stands at depth `depth`, no prefix of the piece
/// nests deeper than `limit`.
pub open spec fn within(piece: Seq<NodeModel>, depth: int, limit: int) -> bool {
    forall|k: int| 0 <= k <= piece.len() ==> depth + #[trigger] depth_after(piece, k) <= limit
}

/// No prefix of the calls nests deeper than `limit`.
pub open spec fn calls_bounded(calls: Seq<CallModel>, limit: int) -> bool {
    forall|n: int| 0 <= n <= calls.len() ==> #[trigger] call_depth(calls, n) <= limit
}

/// A bounded prefix followed by a piece that stays within the bound is
/// bounded.
pub proof fn lemma_extend_bounded(acc: Seq<NodeModel>, piece: Seq<NodeModel>, limit: int)
    requires
        bounded(acc, limit),
        within(piece, depth_after(acc, acc.len() as int), limit),
    ensures
        bounded(acc + piece, limit),
{
    let all = acc + piece;
    assert forall|n: int| 0 <= n <= all.len() implies #[trigger] depth_after(all, n) <= limit by {
        if n <= acc.len() {
            lemma_depth_prefix(acc, piece, n);
        } else {
            lemma_depth_concat(acc, piece, n - acc.len());
        }
    }
}

/// The calls of a record nest no deeper than its nodes.
pub proof fn lemma_document_bounded(nodes: Seq<NodeModel>, limit: int)
    requires
        bounded(nodes, limit),
        document(nodes) is Ok,
    ensures
        calls_bounded(document(nodes).unwrap(), limit),
{
    let calls = document(nodes).unwrap();
    lemma_emit_from(nodes, 0, seq![CallModel::StartOfStream]);
    reveal_with_fuel(call_depth, 2);
    assert(depth_after(nodes, 0) <= limit);
    assert forall|n: int| 0 <= n <= calls.len() implies #[trigger] call_depth(calls, n)
        <= limit by {
        if n == 0 {
        } else if n <= nodes.len() + 1 {
            lemma_document_depth(nodes, n - 1);
        } else {
            lemma_document_depth(nodes, nodes.len() as int);
            assert(calls[n - 1] is EndOfStream);
        }
    }
}

} // verus!
