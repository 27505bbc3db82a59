//! The binary tree over chunks, split where the expected cost is least.
use vstd::prelude::*;
use vstd::seq_lib::to_multiset_contains;
use crate::aabb::AABB;
use crate::accel::math::BuildRules;
use crate::arith::Arith;
use crate::accel::split::{box_around, is_parted, law_split_ignores_order, lemma_box_around_order, Binning, ChunkOrder, ChunkView, Run};
use crate::accel::node::LEAF_LIMIT;
use crate::order::{lemma_rearranged_transitive, lemma_rearranged_wider, rearranged};

verus! {

/// A node of the binary tree: a leaf with a run of chunks, or the index of the
/// first of two children that lie side by side.
#[derive(Clone, Copy, Debug)]
pub struct BvhNode {
    pub aabb: AABB,
    pub left_first: u32,
    pub chunk_count: u32,
}

impl BvhNode {
    /// Whether the node holds chunks rather than children.
    #[verifier::allow_in_spec]
    pub fn is_leaf(&self) -> bool
        returns
            self.chunk_count > 0,
    {
        self.chunk_count > 0
    }

    /// The index of the left child.
    pub open spec fn left(self) -> int {
        self.left_first as int
    }
}

/// Whether the node at `i` has children that come after it.
pub open spec fn has_children(nodes: Seq<BvhNode>, i: int) -> bool {
    !nodes[i].is_leaf() && i < nodes[i].left() && nodes[i].left() + 1 < nodes.len()
}

/// Whether no leaf holds more chunks than a reference can count.
pub open spec fn has_short_leaves(nodes: Seq<BvhNode>) -> bool {
    forall|i: int| 0 <= i < nodes.len() ==> (#[trigger] nodes[i]).chunk_count < LEAF_LIMIT
}

/// Number of chunks under a node.
pub open spec fn weight(nodes: Seq<BvhNode>, i: int) -> nat
    decreases nodes.len() - i,
{
    if has_children(nodes, i) {
        weight(nodes, nodes[i].left()) + weight(nodes, nodes[i].left() + 1)
    } else {
        nodes[i].chunk_count as nat
    }
}

/// Number of nodes under a node.
pub open spec fn size(nodes: Seq<BvhNode>, i: int) -> nat
    decreases nodes.len() - i,
{
    if has_children(nodes, i) {
        2 + size(nodes, nodes[i].left()) + size(nodes, nodes[i].left() + 1)
    } else {
        0
    }
}

/// A binary tree over chunks in some order.
pub struct TreeView {
    pub nodes: Seq<BvhNode>,
    pub order: Seq<usize>,
    pub chunks: ChunkView,
}

impl TreeView {
    /// The chunks under a node whose first chunk is at `first` in the order.
    pub open spec fn items(self, i: int, first: int) -> Seq<usize> {
        self.order.subrange(first, first + weight(self.nodes, i))
    }

    /// Whether the node at `i` is the root of a sound tree: its chunks are a
    /// run of the order from `first` on, and so are those of its left and its
    /// right child, one after the other; the nodes under it fill the indices
    /// from `from` on, children side by side before what lies under them; and
    /// each node's box is the least around its chunks.
    pub open spec fn is_tree(self, i: int, from: int, first: int) -> bool
        decreases self.nodes.len() - i,
    {
        let n = self.nodes[i];
        &&& 0 <= i < from <= self.nodes.len()
        &&& 0 <= first
        &&& first + weight(self.nodes, i) <= self.order.len()
        &&& from + size(self.nodes, i) <= self.nodes.len()
        &&& n.aabb == box_around(self.items(i, first), self.chunks.boxes)
        &&& if n.is_leaf() {
            n.left() == first
        } else {
            &&& has_children(self.nodes, i)
            &&& n.left() == from
            &&& self.is_tree(from, from + 2, first)
            &&& self.is_tree(
                from + 1,
                from + 2 + size(self.nodes, from),
                first + weight(self.nodes, from),
            )
        }
    }

    /// Whether every node under `i`, and `i` itself, is split as the rules say:
    /// with the chunks to the left of the chosen split under the left child;
    /// where no split pays, a leaf if a reference can count its chunks, else
    /// two halves of the run.
    pub open spec fn is_split_by(self, rules: BuildRules, i: int, first: int) -> bool
        decreases self.nodes.len() - i,
    {
        let run = Run { rules, chunks: self.chunks, items: self.items(i, first) };
        if has_children(self.nodes, i) {
            let l = self.nodes[i].left();
            &&& match run.split() {
                Some(b) => is_parted(run.binning(b.axis), run.items, b.bin, weight(self.nodes, l) as int),
                None => run.items.len() >= LEAF_LIMIT && weight(self.nodes, l) == run.items.len() / 2,
            }
            &&& self.is_split_by(rules, l, first)
            &&& self.is_split_by(rules, l + 1, first + weight(self.nodes, l))
        } else {
            run.split() is None && run.items.len() < LEAF_LIMIT
        }
    }
}

/// A sound tree stays one when nodes and chunks that are not its own change.
proof fn lemma_tree_frame(s: TreeView, t: TreeView, i: int, from: int, first: int)
    requires
        s.is_tree(i, from, first),
        s.chunks == t.chunks,
        s.nodes.len() <= t.nodes.len(),
        s.order.len() == t.order.len(),
        t.nodes[i] == s.nodes[i],
        forall|j: int| from <= j < from + size(s.nodes, i) ==> #[trigger] t.nodes[j] == s.nodes[j],
        forall|j: int| first <= j < first + weight(s.nodes, i) ==> #[trigger] t.order[j] == s.order[j],
    ensures
        t.is_tree(i, from, first),
        weight(t.nodes, i) == weight(s.nodes, i),
        size(t.nodes, i) == size(s.nodes, i),
    decreases s.nodes.len() - i,
{
    if !s.nodes[i].is_leaf() {
        let w = weight(s.nodes, from) as int;
        let z = size(s.nodes, from) as int;
        assert(t.nodes[from] == s.nodes[from]);
        assert(t.nodes[from + 1] == s.nodes[from + 1]);
        lemma_tree_frame(s, t, from, from + 2, first);
        lemma_tree_frame(s, t, from + 1, from + 2 + z, first + w);
    }
    assert(t.items(i, first) =~= s.items(i, first));
}

/// A tree that is split as the rules say stays so under the same changes.
proof fn lemma_split_frame(s: TreeView, t: TreeView, rules: BuildRules, i: int, from: int, first: int)
    requires
        s.is_tree(i, from, first),
        s.chunks == t.chunks,
        s.nodes.len() <= t.nodes.len(),
        s.order.len() == t.order.len(),
        t.nodes[i] == s.nodes[i],
        forall|j: int| from <= j < from + size(s.nodes, i) ==> #[trigger] t.nodes[j] == s.nodes[j],
        forall|j: int| first <= j < first + weight(s.nodes, i) ==> #[trigger] t.order[j] == s.order[j],
        s.is_split_by(rules, i, first),
    ensures
        t.is_split_by(rules, i, first),
    decreases s.nodes.len() - i,
{
    lemma_tree_frame(s, t, i, from, first);
    if !s.nodes[i].is_leaf() {
        let w = weight(s.nodes, from) as int;
        let z = size(s.nodes, from) as int;
        assert(t.nodes[from] == s.nodes[from]);
        assert(t.nodes[from + 1] == s.nodes[from + 1]);
        lemma_tree_frame(s, t, from, from + 2, first);
        lemma_split_frame(s, t, rules, from, from + 2, first);
        lemma_split_frame(s, t, rules, from + 1, from + 2 + z, first + w);
    }
    assert(t.items(i, first) =~= s.items(i, first));
}

/// A run that is parted stays so when each part is rearranged on its own.
proof fn lemma_parted_again(n: Binning, s: Seq<usize>, t: Seq<usize>, last: usize, k: int)
    requires
        0 <= k <= s.len(),
        s.len() == t.len(),
        is_parted(n, s, last, k),
        s.subrange(0, k).to_multiset() == t.subrange(0, k).to_multiset(),
        s.subrange(k, s.len() as int).to_multiset() == t.subrange(k, s.len() as int).to_multiset(),
    ensures
        is_parted(n, t, last, k),
{
    let len = s.len() as int;
    assert forall|i: int| 0 <= i < k implies n.side(#[trigger] t[i]) <= last by {
        let p = s.subrange(0, k);
        let q = t.subrange(0, k);
        assert(q[i] == t[i]);
        to_multiset_contains(q, t[i]);
        to_multiset_contains(p, t[i]);
        let j = choose|j: int| 0 <= j < p.len() && p[j] == t[i];
        assert(s[j] == t[i]);
    }
    assert forall|i: int| k <= i < t.len() implies n.side(#[trigger] t[i]) > last by {
        let p = s.subrange(k, len);
        let q = t.subrange(k, len);
        assert(q[i - k] == t[i]);
        to_multiset_contains(q, t[i]);
        to_multiset_contains(p, t[i]);
        let j = choose|j: int| 0 <= j < p.len() && p[j] == t[i];
        assert(s[k + j] == t[i]);
    }
}

/// Fills in the box of a leaf from its chunks.
pub fn update_node_bounds(node_idx: usize, nodes: &mut Vec<BvhNode>, order: &ChunkOrder)
    requires
        node_idx < old(nodes).len(),
        order.valid(),
        old(nodes)[node_idx as int].left_first + old(nodes)[node_idx as int].chunk_count <= order.indices.len(),
    ensures
        final(nodes)@ == old(nodes)@.update(
            node_idx as int,
            (BvhNode {
                aabb: box_around(
                    order.run(
                        old(nodes)[node_idx as int].left_first as int,
                        old(nodes)[node_idx as int].chunk_count as int,
                    ),
                    order.aabbs@,
                ),
                ..old(nodes)[node_idx as int]
            }),
        ),
{
    let mut node = nodes[node_idx];
    node.aabb = order.run_box(node.left_first as usize, node.chunk_count as usize);
    nodes[node_idx] = node;
}

/// The tree that nodes and an order of chunks make up.
pub open spec fn tree_of(nodes: Seq<BvhNode>, order: ChunkOrder) -> TreeView {
    TreeView { nodes, order: order.indices@, chunks: order.chunks() }
}

/// Splits a leaf, and what comes of it, for as long as a split pays or there are
/// more chunks than a reference to a leaf can count.
#[verifier::rlimit(60)]
pub fn subdivide_sah<M: Arith>(math: &M, node_idx: usize, nodes: &mut Vec<BvhNode>, order: &mut ChunkOrder)
    requires
        old(order).valid(),
        node_idx < old(nodes).len(),
        old(nodes)[node_idx as int].is_leaf(),
        tree_of(old(nodes)@, *old(order)).is_tree(
            node_idx as int,
            old(nodes).len() as int,
            old(nodes)[node_idx as int].left(),
        ),
        old(nodes).len() + 2 * old(nodes)[node_idx as int].chunk_count <= u32::MAX,
        old(order).indices.len() <= u32::MAX,
    ensures
        final(order).valid(),
        final(order).chunks() == old(order).chunks(),
        rearranged(
            old(order).indices@,
            final(order).indices@,
            old(nodes)[node_idx as int].left(),
            old(nodes)[node_idx as int].left() + old(nodes)[node_idx as int].chunk_count,
        ),
        forall|j: int| 0 <= j < old(nodes).len() && j != node_idx ==> #[trigger] final(nodes)[j] == old(nodes)[j],
        tree_of(final(nodes)@, *final(order)).is_tree(
            node_idx as int,
            old(nodes).len() as int,
            old(nodes)[node_idx as int].left(),
        ),
        weight(final(nodes)@, node_idx as int) == old(nodes)[node_idx as int].chunk_count,
        final(nodes).len() == old(nodes).len() + size(final(nodes)@, node_idx as int),
        final(nodes).len() + 2 <= old(nodes).len() + 2 * old(nodes)[node_idx as int].chunk_count,
        final(nodes)[node_idx as int].chunk_count < LEAF_LIMIT,
        forall|j: int|
            old(nodes).len() <= j < final(nodes).len() ==> (#[trigger] final(nodes)[j]).chunk_count < LEAF_LIMIT,
        forall|rules: BuildRules| #[trigger]
            rules.describe(*math) ==> tree_of(final(nodes)@, *final(order)).is_split_by(
                rules,
                node_idx as int,
                old(nodes)[node_idx as int].left(),
            ),
    decreases old(nodes)[node_idx as int].chunk_count,
{
    let node = nodes[node_idx];
    let first: usize = node.left_first as usize;
    let count: usize = node.chunk_count as usize;
    let ghost nodes0 = nodes@;
    let ghost order0 = *order;
    proof {
        assert(tree_of(nodes0, order0).items(node_idx as int, first as int) =~= order0.run(first as int, count as int));
    }
    let chosen = order.split_run(math, first, count, &node.aabb);
    let split: Option<usize> = match chosen {
        Some(k) => Some(k),
        None => if count < LEAF_LIMIT as usize {
            None
        } else {
            Some(count / 2)
        },
    };
    match split {
        None => {
            proof {
                let s = order0.run(first as int, count as int);
                let t = order.run(first as int, count as int);
                lemma_box_around_order(s, t, order.aabbs@);
                assert(tree_of(nodes@, *order).items(node_idx as int, first as int) =~= t);
                assert forall|rules: BuildRules| #[trigger] rules.describe(*math) implies tree_of(
                    nodes@,
                    *order,
                ).is_split_by(rules, node_idx as int, first as int) by {
                    law_split_ignores_order(
                        order0.run_view(rules, first as int, count as int),
                        order.run_view(rules, first as int, count as int),
                    );
                }
            }
        },
        Some(left_count) => {
            let left_child_idx: usize = nodes.len();
            nodes.push(BvhNode { aabb: AABB::invalid(), left_first: first as u32, chunk_count: left_count as u32 });
            let right_child_idx: usize = nodes.len();
            nodes.push(
                BvhNode {
                    aabb: AABB::invalid(),
                    left_first: (first + left_count) as u32,
                    chunk_count: (count - left_count) as u32,
                },
            );
            nodes[node_idx] = BvhNode { aabb: node.aabb, left_first: left_child_idx as u32, chunk_count: 0 };
            update_node_bounds(left_child_idx, nodes, order);
            update_node_bounds(right_child_idx, nodes, order);
            let ghost order1 = *order;
            let ghost nodes1 = nodes@;
            let ghost l = left_child_idx as int;
            let ghost f = first as int;
            let ghost k = left_count as int;
            let ghost n = count as int;
            proof {
                assert(tree_of(nodes1, order1).items(l, f) =~= order1.run(f, k));
                assert(tree_of(nodes1, order1).items(l + 1, f + k) =~= order1.run(f + k, n - k));
            }
            subdivide_sah(math, left_child_idx, nodes, order);
            let ghost order2 = *order;
            let ghost nodes2 = nodes@;
            proof {
                assert(nodes2[l + 1] == nodes1[l + 1]);
                assert(order2.run(f + k, n - k) =~= order1.run(f + k, n - k));
                assert(tree_of(nodes2, order2).items(l + 1, f + k) =~= order2.run(f + k, n - k));
            }
            subdivide_sah(math, right_child_idx, nodes, order);
            let ghost order3 = *order;
            let ghost nodes3 = nodes@;
            proof {
                let t2 = tree_of(nodes2, order2);
                let t3 = tree_of(nodes3, order3);
                lemma_tree_frame(t2, t3, l, l + 2, f);
                assert(nodes3[node_idx as int] == nodes1[node_idx as int]);
                assert(weight(nodes3, node_idx as int) == n);

                lemma_rearranged_wider(order1.indices@, order2.indices@, f, f + k, f, f + n);
                lemma_rearranged_wider(order2.indices@, order3.indices@, f + k, f + n, f, f + n);
                lemma_rearranged_transitive(order1.indices@, order2.indices@, order3.indices@, f, f + n);
                lemma_rearranged_transitive(order0.indices@, order1.indices@, order3.indices@, f, f + n);

                let s = order0.run(f, n);
                let t = order3.run(f, n);
                lemma_box_around_order(s, t, order.aabbs@);
                assert(t3.items(node_idx as int, f) =~= t);

                let u = order1.run(f, n);
                assert(u.subrange(0, k) =~= order1.indices@.subrange(f, f + k));
                assert(u.subrange(k, n) =~= order1.indices@.subrange(f + k, f + n));
                assert(t.subrange(0, k) =~= order2.indices@.subrange(f, f + k));
                assert(t.subrange(k, n) =~= order3.indices@.subrange(f + k, f + n));
                assert(order2.indices@.subrange(f + k, f + n) =~= order1.indices@.subrange(f + k, f + n));
                assert forall|rules: BuildRules| #[trigger] rules.describe(*math) implies t3.is_split_by(
                    rules,
                    node_idx as int,
                    f,
                ) by {
                    let run0 = order0.run_view(rules, f, n);
                    let run3 = order3.run_view(rules, f, n);
                    law_split_ignores_order(run0, run3);
                    if let Some(b) = run0.split() {
                        lemma_parted_again(run0.binning(b.axis), u, t, b.bin, k);
                    }
                    lemma_split_frame(t2, t3, rules, l, l + 2, f);
                }
            }
        },
    }
}

} // verus!
