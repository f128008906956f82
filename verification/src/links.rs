//! The links between the nodes of a list: what it is for an order of nodes
//! to be linked, and what linking a node in and out does to it.

use crate::node::{NodePtr, NodeView};
use vstd::prelude::*;

verus! {

/// The links of a node: the node after it and the node before it.
#[derive(Clone, Copy, Debug, PartialEq, Eq, Structural)]
pub struct Header {
    pub next: Option<NodePtr>,
    pub previous: Option<NodePtr>,
}

/// The nodes of a list, by name.
pub type Nodes<U> = Map<NodePtr, NodeView<Header, U>>;

/// The node at place `k` of `order`, if there is one.
pub open spec fn node_at(order: Seq<NodePtr>, k: int) -> Option<NodePtr> {
    if 0 <= k < order.len() {
        Some(order[k])
    } else {
        None
    }
}

/// The place of `p` in `order`.
pub open spec fn index_in(order: Seq<NodePtr>, p: NodePtr) -> int {
    choose|i: int| 0 <= i < order.len() && order[i] == p
}

/// The place at which a node with links `header` belongs in `order`: before
/// its `next`, or at the end where it has none.
pub open spec fn slot_for(order: Seq<NodePtr>, header: Header) -> int {
    match header.next {
        Some(next) => index_in(order, next),
        None => order.len() as int,
    }
}

/// `header` names two neighbours in `order`, or an end of it: a node with
/// these links can be linked in between them.
pub open spec fn fits(order: Seq<NodePtr>, header: Header) -> bool {
    let k = slot_for(order, header);
    &&& 0 <= k <= order.len()
    &&& header.next == node_at(order, k)
    &&& header.previous == node_at(order, k - 1)
}

/// Every node of `order` holds a value, and its links name the nodes beside
/// it in `order`.
pub open spec fn linked<U>(nodes: Nodes<U>, order: Seq<NodePtr>) -> bool {
    forall|i: int|
        0 <= i < order.len() ==> {
            &&& nodes.dom().contains(#[trigger] order[i])
            &&& nodes[order[i]].value.is_some()
            &&& nodes[order[i]].header.next == node_at(order, i + 1)
            &&& nodes[order[i]].header.previous == node_at(order, i - 1)
        }
}

/// The two maps hold the same nodes with the same values, descriptors and
/// layouts; only links may differ.
pub open spec fn same_payloads<U>(a: Nodes<U>, b: Nodes<U>) -> bool {
    &&& a.dom() == b.dom()
    &&& forall|p: NodePtr|
        a.dom().contains(p) ==> (#[trigger] a[p]).value == b[p].value && a[p].metadata
            == b[p].metadata && a[p].value_layout == b[p].value_layout
}

/// The values of the nodes of `order`, in that order.
pub open spec fn values_of<U>(nodes: Nodes<U>, order: Seq<NodePtr>) -> Seq<U> {
    Seq::new(order.len(), |i: int| nodes[order[i]].value.unwrap())
}

/// In a sequence without repeats, a node's place is where it stands.
pub proof fn lemma_index_in(order: Seq<NodePtr>, k: int)
    requires
        order.no_duplicates(),
        0 <= k < order.len(),
    ensures
        index_in(order, order[k]) == k,
{
    let i = index_in(order, order[k]);
    assert(0 <= i < order.len() && order[i] == order[k]);
}

/// In a sequence without repeats, a node whose `next` stands at place `k`
/// (or is absent, with `k` the length) belongs at place `k`.
pub proof fn lemma_slot_for(order: Seq<NodePtr>, header: Header, k: int)
    requires
        order.no_duplicates(),
        0 <= k <= order.len(),
        header.next == node_at(order, k),
    ensures
        slot_for(order, header) == k,
{
    if k < order.len() {
        lemma_index_in(order, k);
    }
}

/// `after` is `before` with two links changed: the node `a`, if there is
/// one, has `a_next` as its `next`, and the node `b`, if there is one, has
/// `b_previous` as its `previous`.
pub open spec fn relinked<U>(
    before: Nodes<U>,
    after: Nodes<U>,
    a: Option<NodePtr>,
    a_next: Option<NodePtr>,
    b: Option<NodePtr>,
    b_previous: Option<NodePtr>,
) -> bool {
    &&& same_payloads(after, before)
    &&& forall|p: NodePtr|
        before.dom().contains(p) ==> (#[trigger] after[p]).header == (Header {
            next: if Some(p) == a {
                a_next
            } else {
                before[p].header.next
            },
            previous: if Some(p) == b {
                b_previous
            } else {
                before[p].header.previous
            },
        })
}

/// Linking a node in, seen from one place: where the node's links name the
/// neighbours of place `k` and the two neighbours are made to name the node,
/// the node at place `i` of the order with the node at place `k` holds a
/// value and names the nodes beside it.
pub proof fn lemma_insert_at<U>(
    before: Nodes<U>,
    after: Nodes<U>,
    order: Seq<NodePtr>,
    k: int,
    node: NodePtr,
    i: int,
)
    requires
        order.no_duplicates(),
        linked(before, order),
        0 <= k <= order.len(),
        before.dom().contains(node),
        !order.contains(node),
        before[node].value.is_some(),
        before[node].header ==
            (Header { next: node_at(order, k), previous: node_at(order, k - 1) }),
        relinked(before, after, node_at(order, k - 1), Some(node), node_at(order, k), Some(node)),
        0 <= i <= order.len(),
    ensures
        after.dom().contains(order.insert(k, node)[i]),
        after[order.insert(k, node)[i]].value == before[order.insert(k, node)[i]].value,
        after[order.insert(k, node)[i]].value.is_some(),
        after[order.insert(k, node)[i]].header.next == node_at(order.insert(k, node), i + 1),
        after[order.insert(k, node)[i]].header.previous == node_at(order.insert(k, node), i - 1),
{
    let grown = order.insert(k, node);
    lemma_not_in(order, node);
    assert(grown.len() == order.len() + 1);
    if i == k {
        assert(grown[i] == node);
        if k > 0 {
            assert(order[k - 1] != node);
            assert(grown[k - 1] == order[k - 1]);
        }
        if k < order.len() {
            assert(order[k] != node);
            assert(grown[k + 1] == order[k]);
        }
    } else if i < k {
        assert(grown[i] == order[i]);
        assert(before.dom().contains(order[i]));
        if i == k - 1 {
            assert(grown[i + 1] == node);
        } else {
            assert(order[i] != order[k - 1]);
            assert(grown[i + 1] == order[i + 1]);
        }
        if k < order.len() {
            assert(order[i] != order[k]);
        }
        if i > 0 {
            assert(grown[i - 1] == order[i - 1]);
        }
    } else {
        let a = i - 1;
        assert(grown[i] == order[a]);
        assert(before.dom().contains(order[a]));
        if a == k {
            assert(grown[i - 1] == node);
        } else {
            assert(order[a] != order[k]);
            assert(grown[i - 1] == order[a - 1]);
        }
        if k > 0 {
            assert(order[a] != order[k - 1]);
        }
        if i + 1 < grown.len() {
            assert(grown[i + 1] == order[a + 1]);
        }
    }
}

/// A sequence without repeats stays so when a node that it does not hold is
/// put in.
pub proof fn lemma_insert_no_duplicates(order: Seq<NodePtr>, k: int, node: NodePtr)
    requires
        order.no_duplicates(),
        !order.contains(node),
        0 <= k <= order.len(),
    ensures
        order.insert(k, node).no_duplicates(),
{
    let grown = order.insert(k, node);
    lemma_not_in(order, node);
    assert forall|i: int, j: int|
        0 <= i < grown.len() && 0 <= j < grown.len() && i != j implies grown[i] != grown[j] by {
        let a = if i < k {
            i
        } else {
            i - 1
        };
        let b = if j < k {
            j
        } else {
            j - 1
        };
        if i != k {
            assert(grown[i] == order[a]);
        }
        if j != k {
            assert(grown[j] == order[b]);
        }
    }
}

/// A sequence without repeats stays so when a node is taken out, and does
/// not hold that node any more.
pub proof fn lemma_remove_no_duplicates(order: Seq<NodePtr>, k: int)
    requires
        order.no_duplicates(),
        0 <= k < order.len(),
    ensures
        order.remove(k).no_duplicates(),
        !order.remove(k).contains(order[k]),
{
    let rest = order.remove(k);
    assert forall|i: int, j: int|
        0 <= i < rest.len() && 0 <= j < rest.len() && i != j implies rest[i] != rest[j] by {
        assert(rest[i] == order[if i < k {
            i
        } else {
            i + 1
        }]);
        assert(rest[j] == order[if j < k {
            j
        } else {
            j + 1
        }]);
    }
    if rest.contains(order[k]) {
        let i = choose|i: int| 0 <= i < rest.len() && rest[i] == order[k];
        assert(rest[i] == order[if i < k {
            i
        } else {
            i + 1
        }]);
    }
}

/// Linking a node in: where the node's links name the neighbours of place `k`
/// and the two neighbours are made to name the node, the order with the node
/// at place `k` is linked.
pub proof fn lemma_insert_linked<U>(
    before: Nodes<U>,
    after: Nodes<U>,
    order: Seq<NodePtr>,
    k: int,
    node: NodePtr,
)
    requires
        order.no_duplicates(),
        linked(before, order),
        0 <= k <= order.len(),
        before.dom().contains(node),
        !order.contains(node),
        before[node].value.is_some(),
        before[node].header ==
            (Header { next: node_at(order, k), previous: node_at(order, k - 1) }),
        relinked(before, after, node_at(order, k - 1), Some(node), node_at(order, k), Some(node)),
    ensures
        linked(after, order.insert(k, node)),
        values_of(after, order.insert(k, node)) == values_of(before, order).insert(
            k,
            before[node].value.unwrap(),
        ),
{
    let grown = order.insert(k, node);
    assert forall|i: int| 0 <= i < grown.len() implies {
        &&& after.dom().contains(#[trigger] grown[i])
        &&& after[grown[i]].value.is_some()
        &&& after[grown[i]].header.next == node_at(grown, i + 1)
        &&& after[grown[i]].header.previous == node_at(grown, i - 1)
    } by {
        lemma_insert_at(before, after, order, k, node, i);
    }
    let value = before[node].value.unwrap();
    let values = values_of(before, order);
    assert(values_of(after, grown).len() == values.insert(k, value).len());
    assert forall|i: int| 0 <= i < grown.len() implies values_of(after, grown)[i] == values.insert(
        k,
        value,
    )[i] by {
        lemma_insert_at(before, after, order, k, node, i);
        if i < k {
            assert(grown[i] == order[i]);
            assert(values.insert(k, value)[i] == values[i]);
        } else if i > k {
            assert(grown[i] == order[i - 1]);
            assert(values.insert(k, value)[i] == values[i - 1]);
        } else {
            assert(grown[i] == node);
            assert(values.insert(k, value)[i] == value);
        }
    }
    assert(values_of(after, grown) =~= values.insert(k, value));
}

/// Taking a node out: where the neighbours of place `k` are made to name
/// each other, the order without the node of place `k` is linked, and that
/// node, which keeps its links, fits where it stood.
pub proof fn lemma_unlink_linked<U>(before: Nodes<U>, after: Nodes<U>, order: Seq<NodePtr>, k: int)
    requires
        order.no_duplicates(),
        linked(before, order),
        0 <= k < order.len(),
        relinked(
            before,
            after,
            node_at(order, k - 1),
            node_at(order, k + 1),
            node_at(order, k + 1),
            node_at(order, k - 1),
        ),
    ensures
        order.remove(k).no_duplicates(),
        !order.remove(k).contains(order[k]),
        linked(after, order.remove(k)),
        values_of(after, order.remove(k)) == values_of(before, order).remove(k),
        after[order[k]].header == before[order[k]].header,
        after[order[k]].value.is_some(),
        fits(order.remove(k), after[order[k]].header),
        slot_for(order.remove(k), after[order[k]].header) == k,
{
    let rest = order.remove(k);
    let node = order[k];
    lemma_remove_no_duplicates(order, k);
    assert(rest.len() == order.len() - 1);
    assert(before.dom().contains(order[k]));
    assert forall|i: int| 0 <= i < k implies rest[i] == order[i] by {}
    assert forall|i: int| k <= i < rest.len() implies rest[i] == order[i + 1] by {}
    assert(linked(after, rest)) by {
        assert forall|i: int| 0 <= i < rest.len() implies {
            &&& after.dom().contains(#[trigger] rest[i])
            &&& after[rest[i]].value.is_some()
            &&& after[rest[i]].header.next == node_at(rest, i + 1)
            &&& after[rest[i]].header.previous == node_at(rest, i - 1)
        } by {
            if i < k {
                assert(rest[i] == order[i]);
                assert(before.dom().contains(order[i]));
                assert(order[i] != order[k]);
            } else {
                assert(rest[i] == order[i + 1]);
                assert(before.dom().contains(order[i + 1]));
                assert(order[i + 1] != order[k]);
            }
        }
    }
    assert(values_of(after, rest) =~= values_of(before, order).remove(k));
    if k + 1 < order.len() {
        assert(order[k] != order[k + 1]);
    }
    if k > 0 {
        assert(order[k] != order[k - 1]);
    }
    assert(after[node].header.next == node_at(rest, k));
    assert(after[node].header.previous == node_at(rest, k - 1));
    lemma_slot_for(rest, after[node].header, k);
}

/// A node that a sequence does not contain stands at none of its places.
pub proof fn lemma_not_in(order: Seq<NodePtr>, p: NodePtr)
    requires
        !order.contains(p),
    ensures
        forall|i: int| 0 <= i < order.len() ==> #[trigger] order[i] != p,
{
    assert forall|i: int| 0 <= i < order.len() implies #[trigger] order[i] != p by {
        if order[i] == p {
            assert(order.contains(p));
        }
    }
}

/// The stored pair of ends that goes with `order`: absent where no node is
/// linked, else the first and the last node.
pub open spec fn ends_of(order: Seq<NodePtr>) -> Option<(NodePtr, NodePtr)> {
    if order.len() == 0 {
        None
    } else {
        Some((order[0], order.last()))
    }
}

/// `order` is an order in which the nodes `nodes` are linked between the
/// ends `ends`.
pub open spec fn orders<U>(
    nodes: Nodes<U>,
    ends: Option<(NodePtr, NodePtr)>,
    order: Seq<NodePtr>,
) -> bool {
    &&& order.no_duplicates()
    &&& linked(nodes, order)
    &&& ends == ends_of(order)
}

/// Two orders of the same nodes between the same ends agree as far as the
/// shorter one goes.
proof fn lemma_orders_agree<U>(
    nodes: Nodes<U>,
    ends: Option<(NodePtr, NodePtr)>,
    a: Seq<NodePtr>,
    b: Seq<NodePtr>,
    i: int,
)
    requires
        orders(nodes, ends, a),
        orders(nodes, ends, b),
        0 <= i < a.len(),
    ensures
        i < b.len(),
        a[i] == b[i],
    decreases i,
{
    if i == 0 {
        assert(b.len() > 0);
    } else {
        lemma_orders_agree(nodes, ends, a, b, i - 1);
        assert(nodes[a[i - 1]].header.next == node_at(a, i));
        assert(nodes[b[i - 1]].header.next == node_at(b, i));
    }
}

/// The links of the nodes and the pair of ends leave one order only.
pub proof fn lemma_order_unique<U>(
    nodes: Nodes<U>,
    ends: Option<(NodePtr, NodePtr)>,
    a: Seq<NodePtr>,
    b: Seq<NodePtr>,
)
    requires
        orders(nodes, ends, a),
        orders(nodes, ends, b),
    ensures
        a == b,
{
    if a.len() > 0 {
        lemma_orders_agree(nodes, ends, a, b, a.len() - 1);
    }
    if b.len() > 0 {
        lemma_orders_agree(nodes, ends, b, a, b.len() - 1);
    }
    assert forall|i: int| 0 <= i < a.len() implies a[i] == b[i] by {
        lemma_orders_agree(nodes, ends, a, b, i);
    }
    assert(a =~= b);
}

} // verus!
