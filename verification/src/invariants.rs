//! What holds of the links of every list in order, and the walk that checks it.

use crate::allocator::Allocator;
use crate::cursor::cursor::lemma_step;
use crate::list::{linked, node_at, DynList, Nodes};
use crate::node::NodePtr;
use vstd::prelude::*;

verus! {

/// The number of steps along `next` from the node `from` to the node `to`,
/// where `to` is reached within `fuel` steps.
pub open spec fn steps_next<U>(
    nodes: Nodes<U>,
    from: NodePtr,
    to: NodePtr,
    fuel: nat,
) -> Option<nat>
    decreases fuel,
{
    if from == to {
        Some(0)
    } else if fuel == 0 {
        None
    } else {
        match nodes[from].header.next {
            Some(next) => match steps_next(nodes, next, to, (fuel - 1) as nat) {
                Some(steps) => Some(steps + 1),
                None => None,
            },
            None => None,
        }
    }
}

/// The number of steps along `previous` from the node `from` to the node
/// `to`, where `to` is reached within `fuel` steps.
pub open spec fn steps_previous<U>(
    nodes: Nodes<U>,
    from: NodePtr,
    to: NodePtr,
    fuel: nat,
) -> Option<nat>
    decreases fuel,
{
    if from == to {
        Some(0)
    } else if fuel == 0 {
        None
    } else {
        match nodes[from].header.previous {
            Some(previous) => match steps_previous(nodes, previous, to, (fuel - 1) as nat) {
                Some(steps) => Some(steps + 1),
                None => None,
            },
            None => None,
        }
    }
}

/// Walking `next` from place `i` of the order reaches place `j` behind it in
/// `j - i` steps.
pub proof fn lemma_steps_next<U>(nodes: Nodes<U>, order: Seq<NodePtr>, i: int, j: int, fuel: nat)
    requires
        order.no_duplicates(),
        linked(nodes, order),
        0 <= i <= j < order.len(),
        fuel >= j - i,
    ensures
        steps_next(nodes, order[i], order[j], fuel) == Some((j - i) as nat),
    decreases j - i,
{
    if i < j {
        assert(order[i] != order[j]);
        assert(nodes[order[i]].header.next == Some(order[i + 1]));
        lemma_steps_next(nodes, order, i + 1, j, (fuel - 1) as nat);
        assert(steps_next(nodes, order[i + 1], order[j], (fuel - 1) as nat) == Some(
            (j - i - 1) as nat,
        ));
    }
}

/// Walking `previous` from place `j` of the order reaches place `i` before it
/// in `j - i` steps.
pub proof fn lemma_steps_previous<U>(
    nodes: Nodes<U>,
    order: Seq<NodePtr>,
    i: int,
    j: int,
    fuel: nat,
)
    requires
        order.no_duplicates(),
        linked(nodes, order),
        0 <= i <= j < order.len(),
        fuel >= j - i,
    ensures
        steps_previous(nodes, order[j], order[i], fuel) == Some((j - i) as nat),
    decreases j - i,
{
    if i < j {
        assert(order[i] != order[j]);
        assert(nodes[order[j]].header.previous == Some(order[j - 1]));
        lemma_steps_previous(nodes, order, i, j - 1, (fuel - 1) as nat);
        assert(steps_previous(nodes, order[j - 1], order[i], (fuel - 1) as nat) == Some(
            (j - i - 1) as nat,
        ));
    }
}

/// Link symmetry: in a list in order, the `next` of a linked node is a linked
/// node whose `previous` is that node, and the `previous` of a linked node is
/// a linked node whose `next` is that node.
pub proof fn lemma_link_symmetry<U, A: Allocator>(list: DynList<U, A>, node: NodePtr)
    requires
        list.wf(),
        list.order().contains(node),
    ensures
        list.nodes()[node].header.next is Some ==> {
            let next = list.nodes()[node].header.next->Some_0;
            list.order().contains(next) && list.nodes()[next].header.previous == Some(node)
        },
        list.nodes()[node].header.previous is Some ==> {
            let previous = list.nodes()[node].header.previous->Some_0;
            list.order().contains(previous) && list.nodes()[previous].header.next == Some(node)
        },
{
    lemma_step(list.order(), list.nodes(), Some(node));
    let header = list.nodes()[node].header;
    if header.next is Some {
        lemma_step(list.order(), list.nodes(), header.next);
    }
    if header.previous is Some {
        lemma_step(list.order(), list.nodes(), header.previous);
    }
}

/// End links: in a list in order that is not empty, the front node has no
/// `previous` and the back node has no `next`.
pub proof fn lemma_end_links<U, A: Allocator>(list: DynList<U, A>)
    requires
        list.wf(),
        list.order().len() > 0,
    ensures
        list.spec_ends() == Some((list.order()[0], list.order().last())),
        list.nodes()[list.order()[0]].header.previous is None,
        list.nodes()[list.order().last()].header.next is None,
{
    assert(list.nodes().dom().contains(list.order()[0]));
    assert(list.nodes().dom().contains(list.order()[list.order().len() - 1]));
}

/// Endpoint agreement: in a list in order that is not empty, walking `next`
/// from the front reaches the back in as many steps as walking `previous`
/// from the back reaches the front: one less than the list has values.
pub proof fn lemma_endpoint_agreement<U, A: Allocator>(list: DynList<U, A>)
    requires
        list.wf(),
        list.order().len() > 0,
    ensures
        steps_next(list.nodes(), list.order()[0], list.order().last(), list.order().len())
            == Some((list.order().len() - 1) as nat),
        steps_previous(list.nodes(), list.order().last(), list.order()[0], list.order().len())
            == Some((list.order().len() - 1) as nat),
{
    let last = list.order().len() - 1;
    lemma_steps_next(list.nodes(), list.order(), 0, last, list.order().len());
    lemma_steps_previous(list.nodes(), list.order(), 0, last, list.order().len());
}

impl<U, A: Allocator> DynList<U, A> {
    /// The number of values in the list, counted by a walk from the front.
    pub fn len(&self) -> (r: usize)
        requires
            self.wf(),
        ensures
            r == self@.len(),
    {
        let mut node: NodePtr = match self.front_node() {
            Some(front) => front,
            None => {
                return 0;
            },
        };
        let mut count: usize = 1;
        let ghost mut i: int = 0;
        proof {
            self.arena().lemma_count(self.order());
        }
        loop
            invariant
                self.wf(),
                0 <= i < self.order().len() <= usize::MAX,
                node == self.order()[i],
                count == i + 1,
            ensures
                count == self.order().len(),
            decreases self.order().len() - i,
        {
            proof {
                assert(self.nodes().dom().contains(self.order()[i]));
            }
            match self.header(node).next {
                Some(next) => {
                    count += 1;
                    node = next;
                    proof {
                        i = i + 1;
                    }
                },
                None => {
                    break ;
                },
            }
        }
        count
    }

    /// Walks the list from the front to the back and from the back to the
    /// front, and gives the number of nodes that both walks met: `None`
    /// where a link does not name the node it came from, a walk does not end
    /// at the stored end, or the two walks differ. A list in order has the
    /// length of the list.
    pub fn check_debug(&self) -> (r: Option<usize>)
        requires
            self.wf(),
        ensures
            r == Some(self@.len() as usize),
            self@.len() <= usize::MAX,
    {
        proof {
            self.arena().lemma_count(self.order());
        }
        let (front, back) = match (self.front_node(), self.back_node()) {
            (Some(front), Some(back)) => (front, back),
            _ => {
                return Some(0);
            },
        };
        let mut forward_len: usize = 1;
        let mut backward_len: usize = 1;
        let mut node: NodePtr = front;
        let ghost mut i: int = 0;
        loop
            invariant
                self.wf(),
                0 <= i < self.order().len() <= usize::MAX,
                node == self.order()[i],
                forward_len == i + 1,
            ensures
                i == self.order().len() - 1,
                node == self.order()[i],
                forward_len == self.order().len(),
            decreases self.order().len() - i,
        {
            proof {
                assert(self.nodes().dom().contains(self.order()[i]));
                if i + 1 < self.order().len() {
                    assert(self.nodes().dom().contains(self.order()[i + 1]));
                }
            }
            match self.header(node).next {
                Some(next) => {
                    match self.header(next).previous {
                        Some(previous) => {
                            if !previous.same(node) {
                                return None;
                            }
                        },
                        None => {
                            return None;
                        },
                    }
                    forward_len += 1;
                    node = next;
                    proof {
                        i = i + 1;
                    }
                },
                None => {
                    break ;
                },
            }
        }
        if !node.same(back) {
            return None;
        }
        loop
            invariant
                self.wf(),
                0 <= i < self.order().len() <= usize::MAX,
                node == self.order()[i],
                backward_len == self.order().len() - i,
            ensures
                i == 0,
                node == self.order()[i],
                backward_len == self.order().len(),
            decreases i,
        {
            proof {
                assert(self.nodes().dom().contains(self.order()[i]));
                if i > 0 {
                    assert(self.nodes().dom().contains(self.order()[i - 1]));
                }
            }
            match self.header(node).previous {
                Some(previous) => {
                    match self.header(previous).next {
                        Some(next) => {
                            if !next.same(node) {
                                return None;
                            }
                        },
                        None => {
                            return None;
                        },
                    }
                    backward_len += 1;
                    node = previous;
                    proof {
                        i = i - 1;
                    }
                },
                None => {
                    break ;
                },
            }
        }
        if !node.same(front) {
            return None;
        }
        if forward_len == backward_len {
            Some(forward_len)
        } else {
            None
        }
    }
}

} // verus!
