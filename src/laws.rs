use vstd::prelude::*;

use crate::graph::lemma_remove_node_well_formed;
use crate::graph::renumbered;
use crate::graph::shift_target;
use crate::graph::GraphView;

verus! {

/// Where node `i` stands once node `k` has been removed.
pub open spec fn new_index(i: usize, k: usize) -> usize {
    if i < k {
        i
    } else {
        (i - 1) as usize
    }
}

/// The targets of `targets` other than `k`, in order.
pub open spec fn without_target(targets: Seq<usize>, k: usize) -> Seq<usize> {
    targets.filter(|t: usize| t != k)
}

/// The targets of `targets` moved to where they stand once node `k` has been
/// removed.
pub open spec fn moved_targets(targets: Seq<usize>, k: usize) -> Seq<usize> {
    targets.map_values(|t: usize| new_index(t, k))
}

/// The graph after `m` pops.
pub open spec fn pop_times<T>(g: GraphView<T>, m: nat) -> GraphView<T>
    decreases m,
{
    if m == 0 {
        g
    } else {
        pop_times(g, (m - 1) as nat).pop()
    }
}

/// Dropping the edges into `k` and then moving the rest is the renumbering
/// that node removal applies.
proof fn lemma_renumbered_is_filter_then_move(targets: Seq<usize>, k: usize)
    ensures
        renumbered(targets, k) == moved_targets(without_target(targets, k), k),
    decreases targets.len(),
{
    reveal(Seq::filter);
    if targets.len() == 0 {
        assert(moved_targets(without_target(targets, k), k) =~= Seq::<usize>::empty());
    } else {
        let rest = targets.drop_last();
        let t = targets.last();
        lemma_renumbered_is_filter_then_move(rest, k);
        let kept = without_target(rest, k);
        if t == k {
            assert(without_target(targets, k) == kept);
        } else {
            assert(without_target(targets, k) == kept.push(t));
            assert(moved_targets(kept.push(t), k) =~= moved_targets(kept, k).push(new_index(t, k)));
            assert(shift_target(k)(t) == Some(new_index(t, k)));
            assert(renumbered(targets, k) =~= renumbered(rest, k) + seq![new_index(t, k)]);
        }
    }
}

/// Adding a node never moves an existing node: every earlier index keeps its
/// payload and its edges, the new node comes last, and every edge target
/// still names a node.
pub proof fn lemma_add_node_keeps_indices<T>(g: GraphView<T>, p: T)
    requires
        g.well_formed(),
    ensures
        g.add_node(p).well_formed(),
        g.add_node(p).nodes.len() == g.nodes.len() + 1,
        g.add_node(p).nodes.last() == p,
        g.add_node(p).edges.last() == Seq::<usize>::empty(),
        forall|i: int|
            0 <= i < g.nodes.len() ==> #[trigger] g.add_node(p).nodes[i] == g.nodes[i]
                && g.add_node(p).edges[i] == g.edges[i],
{
    let h = g.add_node(p);
    assert forall|i: int, j: int|
        0 <= i < h.edges.len() && 0 <= j < h.edges[i].len() implies #[trigger] h.edges[i][j]
        < h.nodes.len() by {
        assert(h.edges[i] == g.edges[i]);
    }
}

/// Removing node `k` deletes it and every edge into or out of it, and moves
/// every later node down by one: the node at old index `i` stands at
/// `new_index(i, k)` with the same payload, and its edges are its old ones
/// without those into `k`, in the same order, with each target moved the
/// same way. The result is well formed.
pub proof fn lemma_remove_node_renumbers<T>(g: GraphView<T>, k: usize)
    requires
        g.well_formed(),
        k < g.nodes.len(),
    ensures
        g.remove_node(k as int).well_formed(),
        g.remove_node(k as int).nodes.len() == g.nodes.len() - 1,
        forall|i: usize|
            i < g.nodes.len() && i != k ==> g.remove_node(k as int).nodes[new_index(i, k) as int]
                == g.nodes[i as int],
        forall|i: usize|
            i < g.nodes.len() && i != k ==> g.remove_node(k as int).edges[new_index(i, k) as int]
                == moved_targets(without_target(#[trigger] g.edges[i as int], k), k),
{
    lemma_remove_node_well_formed(g, k);
    let h = g.remove_node(k as int);
    assert forall|i: usize| i < g.nodes.len() && i != k implies h.edges[new_index(i, k) as int]
        == moved_targets(without_target(#[trigger] g.edges[i as int], k), k) by {
        lemma_renumbered_is_filter_then_move(g.edges[i as int], k);
    }
}

/// Each pop removes one node until the graph is empty; from then on a pop
/// leaves it unchanged. So `m` pops leave `len - m` nodes, and none once `m`
/// reaches the node count.
pub proof fn lemma_pops_drain<T>(g: GraphView<T>, m: nat)
    requires
        g.well_formed(),
    ensures
        pop_times(g, m).well_formed(),
        pop_times(g, m).nodes.len() == if m <= g.nodes.len() {
            g.nodes.len() - m
        } else {
            0
        },
        m >= g.nodes.len() ==> pop_times(g, m).pop() == pop_times(g, m),
    decreases m,
{
    if m > 0 {
        lemma_pops_drain(g, (m - 1) as nat);
        let prev = pop_times(g, (m - 1) as nat);
        if prev.nodes.len() > 0 {
            lemma_remove_node_well_formed(prev, (prev.nodes.len() - 1) as usize);
        }
    }
}

} // verus!
