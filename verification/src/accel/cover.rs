//! Every chunk is found in one place of the tree.
use vstd::prelude::*;
use vstd::seq_lib::to_multiset_contains;
use crate::accel::builder::{chunks_for, placed, range, slot_of, BuildPlan};
use crate::accel::bvh::BvhInner;
use crate::accel::collapse::{
    frontier, is_collapsed, largest_inner, law_slots_match_nodes, lemma_collapsed_slot, lemma_slots_of_cost, list_cost,
    octants, opened, range_cost, slots_cost, slots_of, wide_nodes, widened, has_slot,
};
use crate::accel::geometry::{is_buildable, triangles_of, BuildTri, Geometry, MAX_TRIANGLES};
use crate::accel::math::BuildRules;
use crate::accel::node::{law_leaf_reference_round_trip, leaf_reference, Bvh8Node, TriSlot, LEAF_LIMIT, MAX_CHUNKS, NO_CHILD, WIDTH};
use crate::accel::tree::{has_children, has_short_leaves, size, weight, BvhNode, TreeView};
use crate::order::lemma_map_rearranged;

verus! {

impl BvhInner {
    /// Number of leaves under a reference that hold a chunk.
    pub open spec fn leaves_with(self, reference: u32, c: int) -> nat
        decreases self.height(reference), WIDTH + 1,
    {
        if Bvh8Node::is_leaf(reference) {
            if Bvh8Node::leaf_start(reference) <= c < Bvh8Node::leaf_start(reference) + Bvh8Node::leaf_count(
                reference,
            ) {
                1
            } else {
                0
            }
        } else if reference < self.nodes@.len() {
            self.leaves_with_in_slots(reference, c, WIDTH as nat)
        } else {
            0
        }
    }

    /// Number of leaves under the children in the first `k` slots of a node that
    /// hold a chunk.
    pub open spec fn leaves_with_in_slots(self, n: u32, c: int, k: nat) -> nat
        decreases self.height(n), k,
    {
        if k == 0 {
            0
        } else {
            let child = self.nodes@[n as int].children[k - 1];
            self.leaves_with_in_slots(n, c, (k - 1) as nat) + (if child != NO_CHILD && self.height(child) < self.height(
                n,
            ) {
                self.leaves_with(child, c)
            } else {
                0
            })
        }
    }
}

/// The first chunk under a node of the binary tree.
spec fn first_of(nodes: Seq<BvhNode>, i: int) -> int
    decreases nodes.len() - i,
{
    if has_children(nodes, i) {
        first_of(nodes, nodes[i].left())
    } else {
        nodes[i].left()
    }
}

/// Whether the chunks under each node are a run, those of the right child after
/// those of the left, and each leaf is short enough for a reference.
spec fn is_even(nodes: Seq<BvhNode>, i: int) -> bool
    decreases nodes.len() - i,
{
    &&& 0 <= i < nodes.len()
    &&& if nodes[i].is_leaf() {
        nodes[i].chunk_count < LEAF_LIMIT && nodes[i].left() + nodes[i].chunk_count <= MAX_CHUNKS
    } else {
        let l = nodes[i].left();
        &&& has_children(nodes, i)
        &&& is_even(nodes, l)
        &&& is_even(nodes, l + 1)
        &&& first_of(nodes, l + 1) == first_of(nodes, l) + weight(nodes, l)
    }
}

proof fn lemma_tree_even(t: TreeView, i: int, from: int, first: int)
    requires
        t.is_tree(i, from, first),
        has_short_leaves(t.nodes),
        t.order.len() <= MAX_CHUNKS,
    ensures
        is_even(t.nodes, i),
        first_of(t.nodes, i) == first,
    decreases t.nodes.len() - i,
{
    if !t.nodes[i].is_leaf() {
        lemma_tree_even(t, from, from + 2, first);
        lemma_tree_even(t, from + 1, from + 2 + size(t.nodes, from), first + weight(t.nodes, from));
    }
}

/// One if a chunk lies under a node of the binary tree, else zero.
spec fn holds(nodes: Seq<BvhNode>, i: int, c: int) -> nat {
    if first_of(nodes, i) <= c < first_of(nodes, i) + weight(nodes, i) {
        1
    } else {
        0
    }
}

spec fn holds_in(nodes: Seq<BvhNode>, c: int) -> spec_fn(usize) -> nat {
    |d: usize| holds(nodes, d as int, c)
}

/// Whether all listed nodes are sound, none before `i`.
spec fn are_even(nodes: Seq<BvhNode>, list: Seq<usize>, i: int) -> bool {
    forall|j: int| 0 <= j < list.len() ==> i < #[trigger] list[j] && is_even(nodes, list[j] as int)
}

proof fn lemma_list_cost_update(list: Seq<usize>, cost: spec_fn(usize) -> nat, i: int, x: usize)
    requires
        0 <= i < list.len(),
    ensures
        list_cost(list.update(i, x), cost) + cost(list[i]) == list_cost(list, cost) + cost(x),
    decreases list.len(),
{
    let t = list.drop_last();
    if i == list.len() - 1 {
        assert(list.update(i, x).drop_last() =~= t);
    } else {
        assert(list.update(i, x).drop_last() =~= t.update(i, x));
        lemma_list_cost_update(t, cost, i, x);
    }
}

/// A node holds what its children hold, so opening it changes nothing.
proof fn lemma_opened_holds(nodes: Seq<BvhNode>, list: Seq<usize>, k: int, i: int, c: int)
    requires
        0 <= i < list.len(),
        are_even(nodes, list, k),
        !nodes[list[i] as int].is_leaf(),
        nodes.len() <= u32::MAX,
    ensures
        list_cost(opened(nodes, list, i), holds_in(nodes, c)) == list_cost(list, holds_in(nodes, c)),
        are_even(nodes, opened(nodes, list, i), k),
{
    let cost = holds_in(nodes, c);
    let d = list[i] as int;
    assert(is_even(nodes, d));
    assert(is_even(nodes, list[list.len() - 1] as int));
    let u = list.update(i, list.last());
    lemma_list_cost_update(list, cost, i, list.last());
    let l = nodes[d].left() as usize;
    let v = u.drop_last().push(l);
    let w = v.push((l + 1) as usize);
    assert(v.drop_last() =~= u.drop_last());
    assert(w.drop_last() =~= v);
    assert(u.last() == list.last());
    assert(list_cost(v, cost) == list_cost(u.drop_last(), cost) + cost(l));
    assert(list_cost(w, cost) == list_cost(v, cost) + cost((l + 1) as usize));
    assert(opened(nodes, list, i) == w);
    assert(holds(nodes, d, c) == holds(nodes, l as int, c) + holds(nodes, l + 1, c));
    assert forall|j: int| 0 <= j < w.len() implies k < #[trigger] w[j] && is_even(nodes, w[j] as int) by {
        if j < list.len() - 1 && j != i {
            assert(w[j] == list[j]);
        }
    }
}

/// What is opened is not a leaf.
pub proof fn lemma_largest_is_inner(rules: BuildRules, nodes: Seq<BvhNode>, list: Seq<usize>, n: nat)
    requires
        n <= list.len(),
    ensures
        largest_inner(rules, nodes, list, n).0 matches Some(i) ==> 0 <= i < n && !nodes[list[i] as int].is_leaf(),
    decreases n,
{
    if n > 0 {
        lemma_largest_is_inner(rules, nodes, list, (n - 1) as nat);
    }
}

proof fn lemma_widened_holds(rules: BuildRules, nodes: Seq<BvhNode>, list: Seq<usize>, k: int, c: int)
    requires
        are_even(nodes, list, k),
        nodes.len() <= u32::MAX,
        list.len() <= WIDTH,
    ensures
        list_cost(widened(rules, nodes, list), holds_in(nodes, c)) == list_cost(list, holds_in(nodes, c)),
        are_even(nodes, widened(rules, nodes, list), k),
        widened(rules, nodes, list).len() <= WIDTH,
    decreases WIDTH - list.len(),
{
    lemma_largest_is_inner(rules, nodes, list, list.len());
    match largest_inner(rules, nodes, list, list.len()).0 {
        Some(i) => {
            if list.len() < WIDTH {
                lemma_opened_holds(nodes, list, k, i, c);
                lemma_widened_holds(rules, nodes, opened(nodes, list, i), k, c);
            }
        },
        None => {},
    }
}

/// The nodes that become one wide node's children hold what it is made of.
proof fn lemma_frontier_holds(rules: BuildRules, nodes: Seq<BvhNode>, i: int, c: int)
    requires
        is_even(nodes, i),
        nodes.len() <= u32::MAX,
    ensures
        list_cost(frontier(rules, nodes, i), holds_in(nodes, c)) == holds(nodes, i, c),
        frontier(rules, nodes, i).len() <= WIDTH,
        forall|j: int|
            #![trigger frontier(rules, nodes, i)[j]]
            0 <= j < frontier(rules, nodes, i).len() ==> is_even(nodes, frontier(rules, nodes, i)[j] as int) && (
            nodes[frontier(rules, nodes, i)[j] as int].is_leaf() || i < frontier(rules, nodes, i)[j]),
{
    let cost = holds_in(nodes, c);
    reveal_with_fuel(list_cost, 3);
    if nodes[i].is_leaf() {
        let s = seq![i as usize];
        assert(s.drop_last() =~= Seq::<usize>::empty());
    } else {
        let l = nodes[i].left() as usize;
        let s = seq![l, (l + 1) as usize];
        assert(s.drop_last() =~= seq![l]);
        assert(seq![l].drop_last() =~= Seq::<usize>::empty());
        assert(holds(nodes, i, c) == holds(nodes, l as int, c) + holds(nodes, l + 1, c));
        lemma_widened_holds(rules, nodes, s, i, c);
        let f = frontier(rules, nodes, i);
        assert forall|j: int| 0 <= j < f.len() implies is_even(nodes, #[trigger] f[j] as int) && i < f[j] by {}
    }
}

proof fn lemma_range_cost(list: Seq<usize>, cost: spec_fn(usize) -> nat, n: nat)
    requires
        n <= list.len(),
        list.len() <= WIDTH,
    ensures
        range_cost(|j: usize| cost(list[j as int]), n) == list_cost(list.take(n as int), cost),
    decreases n,
{
    if n > 0 {
        lemma_range_cost(list, cost, (n - 1) as nat);
        assert(list.take(n as int).drop_last() =~= list.take(n - 1));
    } else {
        assert(list.take(0) =~= Seq::<usize>::empty());
    }
}

/// A wide node has a chunk in as many leaves as the node it is made of.
proof fn lemma_collapsed_holds(rules: BuildRules, nodes: Seq<BvhNode>, i: int, inner: BvhInner, at: u32, c: int)
    requires
        is_even(nodes, i),
        nodes.len() <= u32::MAX,
        inner.valid(),
        is_collapsed(rules, nodes, i, inner.nodes@, at as int),
        at < inner.nodes@.len(),
    ensures
        inner.leaves_with(at, c) == holds(nodes, i, c),
    decreases nodes.len() - i, WIDTH + 1,
{
    let list = frontier(rules, nodes, i);
    let octs = octants(rules, nodes, list);
    let cost = |j: usize| holds_in(nodes, c)(list[j as int]);
    lemma_frontier_holds(rules, nodes, i, c);
    law_slots_match_nodes(octs);
    lemma_slots_of_cost(octs, cost);
    lemma_range_cost(list, holds_in(nodes, c), list.len());
    assert(list.take(list.len() as int) =~= list);
    lemma_collapsed_slots_hold(rules, nodes, i, inner, at, c, WIDTH as nat);
    assert(inner.height(at) > 0);
    assert(!Bvh8Node::is_leaf(at));
}

proof fn lemma_collapsed_slots_hold(
    rules: BuildRules,
    nodes: Seq<BvhNode>,
    i: int,
    inner: BvhInner,
    at: u32,
    c: int,
    k: nat,
)
    requires
        is_even(nodes, i),
        nodes.len() <= u32::MAX,
        inner.valid(),
        is_collapsed(rules, nodes, i, inner.nodes@, at as int),
        at < inner.nodes@.len(),
        k <= WIDTH,
    ensures
        inner.leaves_with_in_slots(at, c, k) == slots_cost(
            slots_of(octants(rules, nodes, frontier(rules, nodes, i))),
            |j: usize| holds_in(nodes, c)(frontier(rules, nodes, i)[j as int]),
            k,
        ),
    decreases nodes.len() - i, k,
{
    if k > 0 {
        lemma_collapsed_slots_hold(rules, nodes, i, inner, at, c, (k - 1) as nat);
        let slot = k - 1;
        let list = frontier(rules, nodes, i);
        let octs = octants(rules, nodes, list);
        lemma_frontier_holds(rules, nodes, i, c);
        law_slots_match_nodes(octs);
        lemma_collapsed_slot(rules, nodes, i, inner.nodes@, at as int, slot);
        let child = inner.nodes@[at as int].children[slot];
        match slots_of(octs)[slot] {
            None => {},
            Some(j) => {
                assert(has_slot(slots_of(octs), j));
                let d = list[j as int] as int;
                assert(is_even(nodes, list[j as int] as int));
                if nodes[d].is_leaf() {
                    law_leaf_reference_round_trip(nodes[d].left_first, nodes[d].chunk_count);
                } else {
                    assert(child as int == at + wide_nodes(rules, nodes, i, slot as nat));
                    lemma_wide_child_in_range(rules, nodes, d, inner, child);
                    lemma_wide_nodes_positive(rules, nodes, i, slot as nat);
                    lemma_collapsed_holds(rules, nodes, d, inner, child, c);
                }
                assert(inner.leaves_with(child, c) == holds(nodes, d, c));
                assert(inner.height(child) < inner.height(at));
                assert(child != NO_CHILD);
            },
        }
    }
}

proof fn lemma_wide_nodes_positive(rules: BuildRules, nodes: Seq<BvhNode>, i: int, slot: nat)
    ensures
        wide_nodes(rules, nodes, i, slot) >= 1,
    decreases slot,
{
    if slot > 0 {
        lemma_wide_nodes_positive(rules, nodes, i, (slot - 1) as nat);
    }
}

proof fn lemma_wide_child_in_range(rules: BuildRules, nodes: Seq<BvhNode>, d: int, inner: BvhInner, child: u32)
    requires
        is_collapsed(rules, nodes, d, inner.nodes@, child as int),
    ensures
        child < inner.nodes@.len(),
{
    lemma_wide_nodes_positive(rules, nodes, d, WIDTH as nat);
}

/// In a tree that was built, every chunk is in one leaf under the root, and no
/// other is in any.
pub proof fn law_every_chunk_in_one_leaf(
    inner: BvhInner,
    geoms: Seq<Geometry>,
    plan: BuildPlan,
    rules: BuildRules,
    c: int,
)
    requires
        inner.valid(),
        triangles_of(geoms).len() > 0,
        plan.lays_out(inner, geoms),
        plan.follows(rules, inner, geoms),
    ensures
        inner.leaves_with(0, c) == (if 0 <= c < chunks_for(triangles_of(geoms).len() as int) {
            1nat
        } else {
            0nat
        }),
{
    lemma_tree_even(plan.tree(), 0, 1, 0);
    lemma_wide_nodes_positive(rules, plan.nodes, 0, WIDTH as nat);
    lemma_collapsed_holds(rules, plan.nodes, 0, inner, 0, c);
}

/// A chunk lies under a reference exactly if a leaf there holds it.
proof fn lemma_under_has_leaf(inner: BvhInner, reference: u32, c: int)
    ensures
        inner.is_under(reference, c) <==> inner.leaves_with(reference, c) > 0,
    decreases inner.height(reference), WIDTH + 1,
{
    if !Bvh8Node::is_leaf(reference) && reference < inner.nodes@.len() {
        lemma_slots_have_leaf(inner, reference, c, WIDTH as nat);
        if inner.is_under(reference, c) {
            let slot = choose|slot: int|
                0 <= slot < WIDTH && {
                    let child = #[trigger] inner.nodes@[reference as int].children[slot];
                    child != NO_CHILD && inner.height(child) < inner.height(reference) && inner.is_under(child, c)
                };
            assert(is_under_slot(inner, reference, slot, c));
        }
        if exists|slot: int| 0 <= slot < WIDTH && #[trigger] is_under_slot(inner, reference, slot, c) {
            let slot = choose|slot: int| 0 <= slot < WIDTH && #[trigger] is_under_slot(inner, reference, slot, c);
            let child = inner.nodes@[reference as int].children[slot];
            assert(inner.is_under(reference, c));
        }
    }
}

spec fn is_under_slot(inner: BvhInner, n: u32, slot: int, c: int) -> bool {
    let child = inner.nodes@[n as int].children[slot];
    child != NO_CHILD && inner.height(child) < inner.height(n) && inner.is_under(child, c)
}

proof fn lemma_slots_have_leaf(inner: BvhInner, n: u32, c: int, k: nat)
    requires
        k <= WIDTH,
    ensures
        inner.leaves_with_in_slots(n, c, k) > 0 <==> exists|slot: int|
            0 <= slot < k && #[trigger] is_under_slot(inner, n, slot, c),
    decreases inner.height(n), k,
{
    if k > 0 {
        lemma_slots_have_leaf(inner, n, c, (k - 1) as nat);
        let child = inner.nodes@[n as int].children[k - 1];
        if inner.height(child) < inner.height(n) {
            lemma_under_has_leaf(inner, child, c);
        }
        if exists|slot: int| 0 <= slot < k && #[trigger] is_under_slot(inner, n, slot, c) {
            let slot = choose|slot: int| 0 <= slot < k && #[trigger] is_under_slot(inner, n, slot, c);
            if slot < k - 1 {
                assert(exists|slot: int| 0 <= slot < k - 1 && #[trigger] is_under_slot(inner, n, slot, c));
            }
        }
        if inner.leaves_with_in_slots(n, c, k) > 0 && inner.leaves_with_in_slots(n, c, (k - 1) as nat) == 0 {
            assert(is_under_slot(inner, n, k - 1, c));
        }
    }
}

/// In a tree that was built, every chunk lies under the root.
pub proof fn law_every_chunk_under_root(
    inner: BvhInner,
    geoms: Seq<Geometry>,
    plan: BuildPlan,
    rules: BuildRules,
    c: int,
)
    requires
        inner.valid(),
        triangles_of(geoms).len() > 0,
        plan.lays_out(inner, geoms),
        plan.follows(rules, inner, geoms),
    ensures
        inner.is_under(0, c) <==> 0 <= c < chunks_for(triangles_of(geoms).len() as int),
{
    law_every_chunk_in_one_leaf(inner, geoms, plan, rules, c);
    lemma_under_has_leaf(inner, 0, c);
}

/// What lies under a reference to what a binary node was made into are the
/// chunks of the node.
pub proof fn lemma_under_collapsed(
    rules: BuildRules,
    t: TreeView,
    d: int,
    from: int,
    first: int,
    inner: BvhInner,
    reference: u32,
    c: int,
)
    requires
        t.is_tree(d, from, first),
        has_short_leaves(t.nodes),
        t.order.len() <= MAX_CHUNKS,
        t.nodes.len() <= u32::MAX,
        inner.valid(),
        if t.nodes[d].is_leaf() {
            reference == leaf_reference(t.nodes[d].left_first, t.nodes[d].chunk_count)
        } else {
            is_collapsed(rules, t.nodes, d, inner.nodes@, reference as int)
        },
        inner.is_under(reference, c),
    ensures
        first <= c < first + weight(t.nodes, d),
{
    lemma_tree_even(t, d, from, first);
    if t.nodes[d].is_leaf() {
        law_leaf_reference_round_trip(t.nodes[d].left_first, t.nodes[d].chunk_count);
    } else {
        lemma_wide_child_in_range(rules, t.nodes, d, inner, reference);
        lemma_collapsed_holds(rules, t.nodes, d, inner, reference, c);
        lemma_under_has_leaf(inner, reference, c);
    }
}

/// What triangles were in the scene.
spec fn slots_in(tris: Seq<BuildTri>) -> Seq<TriSlot> {
    tris.map_values(|t: BuildTri| slot_of(t))
}

/// No two triangles of some meshes are the same triangle of the same mesh.
proof fn lemma_slots_distinct(geoms: Seq<Geometry>)
    requires
        geoms.len() < u32::MAX,
        triangles_of(geoms).len() <= MAX_TRIANGLES,
    ensures
        slots_in(triangles_of(geoms)).no_duplicates(),
        forall|i: int|
            0 <= i < triangles_of(geoms).len() ==> (#[trigger] triangles_of(geoms)[i]).geom_id < geoms.len(),
    decreases geoms.len(),
{
    if geoms.len() > 0 {
        let rest = geoms.drop_last();
        lemma_slots_distinct(rest);
        let a = triangles_of(rest);
        let all = triangles_of(geoms);
        assert forall|i: int| 0 <= i < all.len() implies (#[trigger] all[i]).geom_id < geoms.len() && (i < a.len()
            ==> all[i] == a[i]) && (i >= a.len() ==> all[i].geom_id == geoms.len() - 1 && all[i].orig_idx == i
            - a.len()) by {
            if i < a.len() {
                assert(all[i] == a[i]);
                assert(a[i].geom_id < rest.len());
            }
        }
        let s = slots_in(all);
        assert forall|i: int, j: int| 0 <= i < s.len() && 0 <= j < s.len() && i != j implies s[i] != s[j] by {
            assert(s[i] == slot_of(all[i]) && s[j] == slot_of(all[j]));
            if i < a.len() && j < a.len() {
                assert(slots_in(a)[i] == s[i] && slots_in(a)[j] == s[j]);
            } else if i < a.len() {
                assert(a[i].geom_id < rest.len());
            } else if j < a.len() {
                assert(a[j].geom_id < rest.len());
            }
        }
    }
}

proof fn lemma_slot_listed(geoms: Seq<Geometry>, g: int, j: int)
    requires
        geoms.len() < u32::MAX,
        triangles_of(geoms).len() <= MAX_TRIANGLES,
        0 <= g < geoms.len(),
        0 <= j < geoms[g].tris@.len(),
    ensures
        slots_in(triangles_of(geoms)).contains(TriSlot { orig_idx: j as u32, geom_id: g as u32 }),
    decreases geoms.len(),
{
    let rest = geoms.drop_last();
    let a = triangles_of(rest);
    let all = triangles_of(geoms);
    let slot = TriSlot { orig_idx: j as u32, geom_id: g as u32 };
    if g == geoms.len() - 1 {
        assert(slots_in(all)[a.len() + j] == slot);
    } else {
        lemma_slot_listed(rest, g, j);
        let i = choose|i: int| 0 <= i < slots_in(a).len() && slots_in(a)[i] == slot;
        assert(slots_in(all)[i] == slot);
    }
}

/// A sequence with the items of one without duplicates has none either.
proof fn lemma_no_duplicates_order<T>(s: Seq<T>, t: Seq<T>)
    requires
        s.no_duplicates(),
        s.to_multiset() == t.to_multiset(),
    ensures
        t.no_duplicates(),
        forall|x: T| s.contains(x) <==> t.contains(x),
{
    s.lemma_multiset_has_no_duplicates();
    t.lemma_multiset_has_no_duplicates_conv();
    assert forall|x: T| s.contains(x) <==> t.contains(x) by {
        to_multiset_contains(s, x);
        to_multiset_contains(t, x);
    }
}

/// In a tree that was built, every triangle of every mesh has one slot.
pub proof fn law_every_triangle_in_one_slot(inner: BvhInner, geoms: Seq<Geometry>, plan: BuildPlan, g: int, j: int)
    requires
        is_buildable(geoms),
        plan.lays_out(inner, geoms),
        0 <= g < geoms.len(),
        0 <= j < geoms[g].tris@.len(),
    ensures
        exists|k: int|
            0 <= k < inner.tri_slots@.len() && #[trigger] inner.tri_slots@[k] == (TriSlot {
                orig_idx: j as u32,
                geom_id: g as u32,
            }),
        forall|k: int, l: int|
            #![trigger inner.tri_slots@[k], inner.tri_slots@[l]]
            0 <= k < inner.tri_slots@.len() && 0 <= l < inner.tri_slots@.len() && inner.tri_slots@[k] == (TriSlot {
                orig_idx: j as u32,
                geom_id: g as u32,
            }) && inner.tri_slots@[l] == inner.tri_slots@[k] ==> k == l,
{
    let slot = TriSlot { orig_idx: j as u32, geom_id: g as u32 };
    let n = triangles_of(geoms).len() as int;
    let m = chunks_for(n);
    let list = plan.list;
    let order = plan.order;
    lemma_slots_distinct(geoms);
    lemma_slot_listed(geoms, g, j);
    lemma_map_rearranged(triangles_of(geoms), list.take(n), |t: BuildTri| slot_of(t));
    let named = slots_in(list.take(n));
    lemma_no_duplicates_order(slots_in(triangles_of(geoms)), named);
    lemma_no_duplicates_order(range(m), order);
    assert(named.contains(slot));
    let q = choose|q: int| 0 <= q < named.len() && named[q] == slot;
    assert(list.take(n)[q] == list[q]);
    let c = q / WIDTH as int;
    assert(range(m)[c] == c as usize);
    assert(order.contains(c as usize));
    let p = choose|p: int| 0 <= p < order.len() && order[p] == c as usize;
    let k = WIDTH * p + q % WIDTH as int;
    assert(k / WIDTH as int == p && k % WIDTH as int == q % WIDTH as int);
    assert(placed(list, order, k) == list[q]);
    assert(inner.tri_slots@[k] == slot);
    assert forall|k: int, l: int|
        #![trigger inner.tri_slots@[k], inner.tri_slots@[l]]
        0 <= k < inner.tri_slots@.len() && 0 <= l < inner.tri_slots@.len() && inner.tri_slots@[k] == slot
            && inner.tri_slots@[l] == inner.tri_slots@[k] implies k == l by {
        let a = WIDTH * order[k / WIDTH as int] + k % WIDTH as int;
        let b = WIDTH * order[l / WIDTH as int] + l % WIDTH as int;
        assert(range(m).contains(order[k / WIDTH as int]));
        assert(range(m).contains(order[l / WIDTH as int]));
        assert(0 <= a < list.len() && 0 <= b < list.len());
        assert(slot_of(list[a]) == slot && slot_of(list[b]) == slot);
        assert(a < n && b < n);
        assert(named[a] == slot && named[b] == slot);
        assert(a == b);
        assert(order[k / WIDTH as int] == order[l / WIDTH as int]);
        assert(k / WIDTH as int == l / WIDTH as int);
    }
}

} // verus!
