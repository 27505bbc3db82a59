//! From the binary tree to the eight-wide one.
use vstd::prelude::*;
use crate::aabb::AABB;
use crate::accel::math::{middle, BuildRules};
use crate::arith::Arith;
use crate::accel::node::{leaf_reference, nan_box, Bvh8Node, LEAF_FLAG, MAX_CHUNKS, NO_CHILD, WIDTH};
use crate::accel::tree::{has_children, size, BvhNode};
use crate::scalar::{Point3, Scalar, MAX_KEY, ONE_KEY};

verus! {

/// Whether the tree under a node ends in leaves, with children after parents
/// and no leaf's chunks beyond a limit.
pub open spec fn is_linked(nodes: Seq<BvhNode>, limit: int, i: int) -> bool
    decreases nodes.len() - i,
{
    &&& 0 <= i < nodes.len()
    &&& if nodes[i].is_leaf() {
        nodes[i].left_first + nodes[i].chunk_count <= limit
    } else {
        &&& has_children(nodes, i)
        &&& is_linked(nodes, limit, nodes[i].left())
        &&& is_linked(nodes, limit, nodes[i].left() + 1)
    }
}

/// An area below every area.
pub open spec fn below_areas() -> Scalar {
    Scalar { key: (-ONE_KEY) as i32 }
}

/// The position, among the first `n` nodes of a list, of the first one with
/// children that has the largest area, and that area.
pub open spec fn largest_inner(rules: BuildRules, nodes: Seq<BvhNode>, list: Seq<usize>, n: nat) -> (Option<int>, Scalar)
    decreases n,
{
    if n == 0 {
        (None, below_areas())
    } else {
        let (at, area) = largest_inner(rules, nodes, list, (n - 1) as nat);
        let node = nodes[list[n - 1] as int];
        if !node.is_leaf() && area.lt((rules.surface_area)(node.aabb)) {
            (Some(n - 1), (rules.surface_area)(node.aabb))
        } else {
            (at, area)
        }
    }
}

/// A list in which a node makes room for its two children: the last of the
/// list takes its place, and the children come at the end.
pub open spec fn opened(nodes: Seq<BvhNode>, list: Seq<usize>, i: int) -> Seq<usize> {
    let left = nodes[list[i] as int].left();
    list.update(i, list.last()).drop_last().push(left as usize).push((left + 1) as usize)
}

/// A list whose largest node with children is opened until it has eight nodes
/// or none is left to open.
pub open spec fn widened(rules: BuildRules, nodes: Seq<BvhNode>, list: Seq<usize>) -> Seq<usize>
    decreases WIDTH - list.len(),
{
    match largest_inner(rules, nodes, list, list.len()).0 {
        Some(i) => if list.len() < WIDTH && 0 <= i < list.len() {
            widened(rules, nodes, opened(nodes, list, i))
        } else {
            list
        },
        None => list,
    }
}

/// The nodes that become the children of one wide node: what lies under the
/// node's own children, opened up to eight; a leaf alone.
pub open spec fn frontier(rules: BuildRules, nodes: Seq<BvhNode>, i: int) -> Seq<usize> {
    if nodes[i].is_leaf() {
        seq![i as usize]
    } else {
        widened(rules, nodes, seq![nodes[i].left() as usize, (nodes[i].left() + 1) as usize])
    }
}

/// The lesser of two bounds, the present one unless the other is less.
#[verifier::allow_in_spec]
fn lesser(present: Scalar, other: Scalar) -> Scalar
    returns
        (if other.lt(present) { other } else { present }),
{
    if other.lt(present) {
        other
    } else {
        present
    }
}

/// The greater of two bounds, the present one unless the other is greater.
#[verifier::allow_in_spec]
fn greater(present: Scalar, other: Scalar) -> Scalar
    returns
        (if present.lt(other) { other } else { present }),
{
    if present.lt(other) {
        other
    } else {
        present
    }
}

/// A box, stretched to another's bounds.
pub closed spec fn stretched(a: AABB, b: AABB) -> AABB {
    AABB {
        min: Point3 {
            x: lesser(a.min.x, b.min.x),
            y: lesser(a.min.y, b.min.y),
            z: lesser(a.min.z, b.min.z),
        },
        max: Point3 {
            x: greater(a.max.x, b.max.x),
            y: greater(a.max.y, b.max.y),
            z: greater(a.max.z, b.max.z),
        },
    }
}

/// The box that the nodes of a list spread over.
pub open spec fn spread(nodes: Seq<BvhNode>, list: Seq<usize>) -> AABB
    decreases list.len(),
{
    if list.len() == 0 {
        let hi = Scalar { key: MAX_KEY };
        let lo = Scalar::neg_infinity();
        AABB { min: Point3 { x: hi, y: hi, z: hi }, max: Point3 { x: lo, y: lo, z: lo } }
    } else {
        stretched(spread(nodes, list.drop_last()), nodes[list.last() as int].aabb)
    }
}

/// The middle of a box, axis by axis.
pub open spec fn middle_of(rules: BuildRules, b: AABB) -> Point3 {
    Point3 {
        x: (rules.middle)(b.min.x, b.max.x),
        y: (rules.middle)(b.min.y, b.max.y),
        z: (rules.middle)(b.min.z, b.max.z),
    }
}

/// The octant, around a center, of a point: one bit per axis, set from the
/// center on.
#[verifier::allow_in_spec]
pub fn octant(center: Point3, p: Point3) -> usize
    returns
        ((if center.x.le(p.x) { 1int } else { 0 }) + (if center.y.le(p.y) { 2int } else { 0 }) + (if center.z.le(p.z) {
            4int
        } else {
            0
        })) as usize,
{
    let x: usize = if center.x.le(p.x) { 1 } else { 0 };
    let y: usize = if center.y.le(p.y) { 2 } else { 0 };
    let z: usize = if center.z.le(p.z) { 4 } else { 0 };
    x + y + z
}

/// The octants of the nodes of a list around the middle of their spread.
pub open spec fn octants(rules: BuildRules, nodes: Seq<BvhNode>, list: Seq<usize>) -> Seq<usize> {
    let center = middle_of(rules, spread(nodes, list));
    Seq::new(list.len(), |j: int| octant(center, middle_of(rules, nodes[list[j] as int].aabb)))
}

/// Slots, each free or with the position of a node in a list.
pub open spec fn no_slots() -> Seq<Option<usize>> {
    Seq::new(WIDTH as nat, |i: int| None)
}

/// The slots after each of the first `n` nodes has taken the slot of its octant,
/// if that was free.
pub open spec fn seated(octs: Seq<usize>, n: nat) -> Seq<Option<usize>>
    decreases n,
{
    if n == 0 {
        no_slots()
    } else {
        let s = seated(octs, (n - 1) as nat);
        if s[octs[n - 1] as int] is None {
            s.update(octs[n - 1] as int, Some((n - 1) as usize))
        } else {
            s
        }
    }
}

/// The positions, among the first `n` nodes, of those whose slot was taken.
pub open spec fn waiting(octs: Seq<usize>, n: nat) -> Seq<usize>
    decreases n,
{
    if n == 0 {
        Seq::empty()
    } else {
        let w = waiting(octs, (n - 1) as nat);
        if seated(octs, (n - 1) as nat)[octs[n - 1] as int] is None {
            w
        } else {
            w.push((n - 1) as usize)
        }
    }
}

/// The first free slot at or after `k`.
pub open spec fn first_free(s: Seq<Option<usize>>, k: int) -> int
    decreases s.len() - k,
{
    if 0 <= k < s.len() && s[k] is Some {
        first_free(s, k + 1)
    } else {
        k
    }
}

/// The slots after the waiting nodes have taken the first free ones in turn.
pub open spec fn filled(s: Seq<Option<usize>>, w: Seq<usize>) -> Seq<Option<usize>>
    decreases w.len(),
{
    if w.len() == 0 {
        s
    } else {
        let t = filled(s, w.drop_last());
        t.update(first_free(t, 0), Some(w.last()))
    }
}

/// The slot of each node of a list: that of its octant for the first node
/// there, the first free one for the others.
pub open spec fn slots_of(octs: Seq<usize>) -> Seq<Option<usize>> {
    filled(seated(octs, octs.len()), waiting(octs, octs.len()))
}

/// Number of taken slots among the first `n`.
spec fn taken(s: Seq<Option<usize>>, n: nat) -> nat
    decreases n,
{
    if n == 0 {
        0
    } else {
        taken(s, (n - 1) as nat) + (if s[n - 1] is Some {
            1nat
        } else {
            0nat
        })
    }
}

proof fn lemma_taken_update(s: Seq<Option<usize>>, k: int, x: usize, n: nat)
    requires
        0 <= k < s.len(),
        n <= s.len(),
        s[k] is None,
    ensures
        taken(s.update(k, Some(x)), n) == taken(s, n) + (if k < n {
            1nat
        } else {
            0nat
        }),
    decreases n,
{
    if n > 0 {
        lemma_taken_update(s, k, x, (n - 1) as nat);
    }
}

proof fn lemma_taken_none(n: nat)
    requires
        n <= WIDTH,
    ensures
        taken(no_slots(), n) == 0,
    decreases n,
{
    if n > 0 {
        lemma_taken_none((n - 1) as nat);
    }
}

proof fn lemma_first_free(s: Seq<Option<usize>>, k: int)
    requires
        0 <= k <= s.len(),
        taken(s, s.len()) < s.len(),
        taken(s, k as nat) == k,
    ensures
        k <= first_free(s, k) < s.len(),
        s[first_free(s, k)] is None,
    decreases s.len() - k,
{
    if k < s.len() && s[k] is Some {
        lemma_first_free(s, k + 1);
    }
}

/// What the slots hold: each position below `n` once, or else it waits.
proof fn lemma_seated(octs: Seq<usize>, n: nat)
    requires
        n <= octs.len() <= WIDTH,
        forall|j: int| 0 <= j < octs.len() ==> #[trigger] octs[j] < WIDTH,
    ensures
        seated(octs, n).len() == WIDTH,
        forall|k: int|
            0 <= k < WIDTH ==> (#[trigger] seated(octs, n)[k] matches Some(j) ==> j < n && octs[j as int] == k),
        forall|q: int| 0 <= q < waiting(octs, n).len() ==> #[trigger] waiting(octs, n)[q] < n,
        forall|q: int, r: int|
            0 <= q < r < waiting(octs, n).len() ==> #[trigger] waiting(octs, n)[q] < #[trigger] waiting(octs, n)[r],
        forall|q: int|
            0 <= q < waiting(octs, n).len() ==> seated(octs, n)[octs[#[trigger] waiting(octs, n)[q] as int] as int]
                != Some(waiting(octs, n)[q]),
        forall|j: int|
            0 <= j < n ==> seated(octs, n)[#[trigger] octs[j] as int] == Some(j as usize) || waiting(
                octs,
                n,
            ).contains(j as usize),
        taken(seated(octs, n), WIDTH as nat) + waiting(octs, n).len() == n,
    decreases n,
{
    if n == 0 {
        lemma_taken_none(WIDTH as nat);
    } else {
        let m = (n - 1) as nat;
        lemma_seated(octs, m);
        let s = seated(octs, m);
        let w = waiting(octs, m);
        let k = octs[n - 1] as int;
        if s[k] is None {
            lemma_taken_update(s, k, m as usize, WIDTH as nat);
            assert forall|j: int| 0 <= j < n implies seated(octs, n)[#[trigger] octs[j] as int] == Some(j as usize)
                || waiting(octs, n).contains(j as usize) by {
                if j < m {
                    assert(s[octs[j] as int] == Some(j as usize) || w.contains(j as usize));
                }
            }
        } else {
            let v = w.push(m as usize);
            assert forall|j: int| 0 <= j < n implies seated(octs, n)[#[trigger] octs[j] as int] == Some(j as usize)
                || v.contains(j as usize) by {
                if j < m {
                    if w.contains(j as usize) {
                        let q = choose|q: int| 0 <= q < w.len() && w[q] == j as usize;
                        assert(v[q] == j as usize);
                    }
                } else {
                    assert(v[w.len() as int] == j as usize);
                }
            }
        }
    }
}

/// Whether a position has a slot.
pub open spec fn has_slot(s: Seq<Option<usize>>, j: usize) -> bool {
    exists|k: int| 0 <= k < s.len() && #[trigger] s[k] == Some(j)
}

/// Whether no position has two slots.
pub open spec fn is_one_to_one(s: Seq<Option<usize>>) -> bool {
    forall|k: int, l: int|
        #![trigger s[k], s[l]]
        0 <= k < s.len() && 0 <= l < s.len() && s[k] is Some && s[k] == s[l] ==> k == l
}

proof fn lemma_filled(s: Seq<Option<usize>>, w: Seq<usize>)
    requires
        s.len() == WIDTH,
        taken(s, WIDTH as nat) + w.len() <= WIDTH,
        is_one_to_one(s),
        forall|q: int| 0 <= q < w.len() ==> !has_slot(s, #[trigger] w[q]),
        forall|q: int, r: int| 0 <= q < r < w.len() ==> #[trigger] w[q] < #[trigger] w[r],
    ensures
        filled(s, w).len() == WIDTH,
        taken(filled(s, w), WIDTH as nat) == taken(s, WIDTH as nat) + w.len(),
        is_one_to_one(filled(s, w)),
        forall|j: usize| has_slot(filled(s, w), j) <==> has_slot(s, j) || w.contains(j),
    decreases w.len(),
{
    if w.len() > 0 {
        let v = w.drop_last();
        let x = w.last();
        lemma_filled(s, v);
        let t = filled(s, v);
        lemma_first_free(t, 0);
        let f = first_free(t, 0);
        lemma_taken_update(t, f, x, WIDTH as nat);
        let u = t.update(f, Some(x));
        assert(!v.contains(x)) by {
            if v.contains(x) {
                let q = choose|q: int| 0 <= q < v.len() && v[q] == x;
                assert(w[q] < w[w.len() - 1]);
            }
        }
        assert(!has_slot(s, w[w.len() - 1]));
        assert(!has_slot(t, x));
        assert forall|j: usize| has_slot(u, j) <==> has_slot(s, j) || w.contains(j) by {
            if j == x {
                assert(u[f] == Some(x));
                assert(w[w.len() - 1] == x);
            } else {
                if has_slot(u, j) {
                    let k = choose|k: int| 0 <= k < u.len() && u[k] == Some(j);
                    assert(t[k] == Some(j));
                    if v.contains(j) {
                        let q = choose|q: int| 0 <= q < v.len() && v[q] == j;
                        assert(w[q] == j);
                    }
                }
                if has_slot(t, j) {
                    let k = choose|k: int| 0 <= k < t.len() && t[k] == Some(j);
                    assert(u[k] == Some(j));
                }
                if w.contains(j) {
                    let q = choose|q: int| 0 <= q < w.len() && w[q] == j;
                    assert(v[q] == j);
                }
            }
        }
    }
}

/// Every node of a list of at most eight has one slot, and no slot has two.
pub proof fn law_slots_match_nodes(octs: Seq<usize>)
    requires
        octs.len() <= WIDTH,
        forall|j: int| 0 <= j < octs.len() ==> #[trigger] octs[j] < WIDTH,
    ensures
        slots_of(octs).len() == WIDTH,
        is_one_to_one(slots_of(octs)),
        forall|j: usize| has_slot(slots_of(octs), j) <==> j < octs.len(),
{
    let n = octs.len();
    lemma_seated(octs, n);
    let s = seated(octs, n);
    let w = waiting(octs, n);
    assert forall|q: int| 0 <= q < w.len() implies !has_slot(s, #[trigger] w[q]) by {
        if has_slot(s, w[q]) {
            let k = choose|k: int| 0 <= k < s.len() && s[k] == Some(w[q]);
            assert(octs[w[q] as int] == k);
        }
    }
    lemma_filled(s, w);
    assert forall|j: usize| has_slot(slots_of(octs), j) <==> j < octs.len() by {
        if j < octs.len() {
            assert(s[octs[j as int] as int] == Some(j) || w.contains(j));
            if s[octs[j as int] as int] == Some(j) {
                assert(has_slot(s, j));
            }
        } else {
            if has_slot(s, j) {
                let k = choose|k: int| 0 <= k < s.len() && s[k] == Some(j);
            }
            if w.contains(j) {
                let q = choose|q: int| 0 <= q < w.len() && w[q] == j;
                assert(w[q] < n);
            }
        }
    }
}

/// A node alone in its octant sits in that octant's slot.
pub proof fn law_lone_node_keeps_octant(octs: Seq<usize>, j: int)
    requires
        octs.len() <= WIDTH,
        forall|i: int| 0 <= i < octs.len() ==> #[trigger] octs[i] < WIDTH,
        0 <= j < octs.len(),
        forall|i: int| 0 <= i < j ==> #[trigger] octs[i] != octs[j],
    ensures
        slots_of(octs)[octs[j] as int] == Some(j as usize),
{
    let n = octs.len();
    lemma_seated(octs, n);
    lemma_seat_kept(octs, j, n);
    let s = seated(octs, n);
    let w = waiting(octs, n);
    assert forall|q: int| 0 <= q < w.len() implies !has_slot(s, #[trigger] w[q]) by {
        if has_slot(s, w[q]) {
            let k = choose|k: int| 0 <= k < s.len() && s[k] == Some(w[q]);
            assert(octs[w[q] as int] == k);
        }
    }
    lemma_filled_keeps(s, w, octs[j] as int);
}

proof fn lemma_seat_kept(octs: Seq<usize>, j: int, n: nat)
    requires
        n <= octs.len() <= WIDTH,
        forall|i: int| 0 <= i < octs.len() ==> #[trigger] octs[i] < WIDTH,
        0 <= j < octs.len(),
        forall|i: int| 0 <= i < j ==> #[trigger] octs[i] != octs[j],
    ensures
        n <= j ==> seated(octs, n)[octs[j] as int] is None,
        n > j ==> seated(octs, n)[octs[j] as int] == Some(j as usize),
    decreases n,
{
    lemma_seated(octs, n);
    if n > 0 {
        lemma_seated(octs, (n - 1) as nat);
        lemma_seat_kept(octs, j, (n - 1) as nat);
    }
}

proof fn lemma_filled_keeps(s: Seq<Option<usize>>, w: Seq<usize>, k: int)
    requires
        s.len() == WIDTH,
        taken(s, WIDTH as nat) + w.len() <= WIDTH,
        is_one_to_one(s),
        forall|q: int| 0 <= q < w.len() ==> !has_slot(s, #[trigger] w[q]),
        forall|q: int, r: int| 0 <= q < r < w.len() ==> #[trigger] w[q] < #[trigger] w[r],
        0 <= k < WIDTH,
        s[k] is Some,
    ensures
        filled(s, w)[k] == s[k],
    decreases w.len(),
{
    if w.len() > 0 {
        let v = w.drop_last();
        lemma_filled_keeps(s, v, k);
        lemma_filled(s, v);
        lemma_first_free(filled(s, v), 0);
    }
}

/// Gives each node of a list, known by its octant, its slot.
pub fn assign_slots(octs: &Vec<usize>) -> (r: [Option<usize>; 8])
    requires
        octs.len() <= WIDTH,
        forall|j: int| 0 <= j < octs.len() ==> #[trigger] octs[j] < WIDTH,
    ensures
        r@ == slots_of(octs@),
{
    let mut slots: [Option<usize>; 8] = [None;8];
    let mut pending: Vec<usize> = Vec::new();
    assert(slots@ =~= seated(octs@, 0));
    let mut i: usize = 0;
    while i < octs.len()
        invariant
            i <= octs.len() <= WIDTH,
            forall|j: int| 0 <= j < octs.len() ==> #[trigger] octs[j] < WIDTH,
            slots@ == seated(octs@, i as nat),
            pending@ == waiting(octs@, i as nat),
        decreases octs.len() - i,
    {
        let oct: usize = octs[i];
        if slots[oct].is_none() {
            slots[oct] = Some(i);
        } else {
            pending.push(i);
        }
        i = i + 1;
    }
    let ghost start = slots@;
    proof {
        lemma_seated(octs@, octs@.len());
        let w = pending@;
        assert forall|q: int| 0 <= q < w.len() implies !has_slot(start, #[trigger] w[q]) by {
            if has_slot(start, w[q]) {
                let k = choose|k: int| 0 <= k < start.len() && start[k] == Some(w[q]);
                assert(octs[w[q] as int] == k);
            }
        }
        assert(w.take(0) =~= Seq::<usize>::empty());
    }
    let mut p: usize = 0;
    while p < pending.len()
        invariant
            p <= pending.len(),
            slots@ == filled(start, pending@.take(p as int)),
            start.len() == WIDTH,
            taken(start, WIDTH as nat) + pending.len() <= WIDTH,
            is_one_to_one(start),
            forall|q: int| 0 <= q < pending.len() ==> !has_slot(start, #[trigger] pending@[q]),
            forall|q: int, r: int| 0 <= q < r < pending.len() ==> #[trigger] pending@[q] < #[trigger] pending@[r],
        decreases pending.len() - p,
    {
        let ghost before = slots@;
        proof {
            let w = pending@.take(p as int);
            assert forall|q: int| 0 <= q < w.len() implies !has_slot(start, #[trigger] w[q]) by {
                assert(w[q] == pending@[q]);
            }
            lemma_filled(start, w);
            lemma_first_free(before, 0);
        }
        let mut slot: usize = 0;
        while slots[slot].is_some()
            invariant
                slot < WIDTH,
                slots@ == before,
                before.len() == WIDTH,
                first_free(before, slot as int) == first_free(before, 0),
                0 <= first_free(before, 0) < WIDTH,
            decreases WIDTH - slot,
        {
            proof {
                reveal_with_fuel(first_free, 2);
            }
            slot = slot + 1;
        }
        slots[slot] = Some(pending[p]);
        proof {
            assert(pending@.take(p + 1).drop_last() =~= pending@.take(p as int));
        }
        p = p + 1;
    }
    assert(pending@.take(p as int) =~= pending@);
    slots
}

/// The position in a list of the first node with children that has the largest
/// area.
fn find_largest<M: Arith>(math: &M, nodes: &Vec<BvhNode>, list: &Vec<usize>) -> (r: Option<usize>)
    requires
        forall|j: int| 0 <= j < list.len() ==> #[trigger] list[j] < nodes.len(),
    ensures
        r matches Some(i) ==> i < list.len() && !nodes[list[i as int] as int].is_leaf(),
        forall|rules: BuildRules| #[trigger]
            rules.describe(*math) ==> match r {
                Some(i) => largest_inner(rules, nodes@, list@, list@.len()).0 == Some(i as int),
                None => largest_inner(rules, nodes@, list@, list@.len()).0 is None,
            },
{
    let mut at: Option<usize> = None;
    let mut best_area = Scalar { key: -ONE_KEY };
    let mut i: usize = 0;
    while i < list.len()
        invariant
            i <= list.len(),
            forall|j: int| 0 <= j < list.len() ==> #[trigger] list[j] < nodes.len(),
            at matches Some(k) ==> k < list.len() && !nodes[list[k as int] as int].is_leaf(),
            forall|rules: BuildRules| #[trigger]
                rules.describe(*math) ==> {
                    let b = largest_inner(rules, nodes@, list@, i as nat);
                    &&& b.1 == best_area
                    &&& match at {
                        Some(k) => b.0 == Some(k as int),
                        None => b.0 is None,
                    }
                },
        decreases list.len() - i,
    {
        let node = nodes[list[i]];
        if !node.is_leaf() {
            let area = node.aabb.surface_area(math);
            if best_area.lt(area) {
                best_area = area;
                at = Some(i);
            }
        }
        i = i + 1;
    }
    at
}

/// Whether each node of a list is the root of a linked tree and comes after `i`.
pub open spec fn all_linked_after(nodes: Seq<BvhNode>, limit: int, list: Seq<usize>, i: int) -> bool {
    forall|j: int| 0 <= j < list.len() ==> i < #[trigger] list[j] && is_linked(nodes, limit, list[j] as int)
}

/// Number of the nodes in some trees, whose roots are listed.
pub open spec fn trees_size(nodes: Seq<BvhNode>, list: Seq<usize>) -> nat
    decreases list.len(),
{
    if list.len() == 0 {
        0
    } else {
        trees_size(nodes, list.drop_last()) + 1 + size(nodes, list.last() as int)
    }
}

proof fn lemma_trees_size_update(nodes: Seq<BvhNode>, list: Seq<usize>, i: int, x: usize)
    requires
        0 <= i < list.len(),
    ensures
        trees_size(nodes, list.update(i, x)) + size(nodes, list[i] as int) == trees_size(nodes, list) + size(
            nodes,
            x as int,
        ),
    decreases list.len(),
{
    let t = list.drop_last();
    if i == list.len() - 1 {
        assert(list.update(i, x).drop_last() =~= t);
    } else {
        assert(list.update(i, x).drop_last() =~= t.update(i, x));
        lemma_trees_size_update(nodes, t, i, x);
    }
}

/// Opening a node leaves the node itself out.
proof fn lemma_trees_size_opened(nodes: Seq<BvhNode>, list: Seq<usize>, i: int)
    requires
        0 <= i < list.len(),
        has_children(nodes, list[i] as int),
        nodes.len() <= u32::MAX,
    ensures
        trees_size(nodes, opened(nodes, list, i)) + 1 == trees_size(nodes, list),
{
    let u = list.update(i, list.last());
    lemma_trees_size_update(nodes, list, i, list.last());
    let l = nodes[list[i] as int].left() as usize;
    let v = u.drop_last().push(l);
    assert(v.drop_last() =~= u.drop_last());
    let w = v.push((l + 1) as usize);
    assert(w.drop_last() =~= v);
    assert(u.last() == list.last());
    assert(trees_size(nodes, v) == trees_size(nodes, u.drop_last()) + 1 + size(nodes, l as int));
    assert(trees_size(nodes, w) == trees_size(nodes, v) + 1 + size(nodes, l + 1));
    assert(opened(nodes, list, i) == w);
}

/// The nodes that become the children of one wide node.
fn find_frontier<M: Arith>(math: &M, nodes: &Vec<BvhNode>, Ghost(limit): Ghost<int>, node_idx: usize) -> (r: Vec<
    usize,
>)
    requires
        is_linked(nodes@, limit, node_idx as int),
        nodes.len() <= u32::MAX,
    ensures
        0 < r.len() <= WIDTH,
        nodes[node_idx as int].is_leaf() ==> r@ == seq![node_idx],
        !nodes[node_idx as int].is_leaf() ==> all_linked_after(nodes@, limit, r@, node_idx as int),
        !nodes[node_idx as int].is_leaf() ==> trees_size(nodes@, r@) <= size(nodes@, node_idx as int),
        forall|rules: BuildRules| #[trigger]
            rules.describe(*math) ==> r@ == frontier(rules, nodes@, node_idx as int),
{
    let mut list: Vec<usize> = Vec::new();
    if nodes[node_idx].is_leaf() {
        list.push(node_idx);
        assert(list@ =~= seq![node_idx]);
        return list;
    }
    let first: usize = nodes[node_idx].left_first as usize;
    list.push(first);
    list.push(first + 1);
    let ghost start = list@;
    assert(start =~= seq![first, (first + 1) as usize]);
    proof {
        reveal_with_fuel(trees_size, 3);
        assert(start.drop_last() =~= seq![first]);
        assert(start.drop_last().drop_last() =~= Seq::<usize>::empty());
    }
    let mut open: bool = true;
    while open && list.len() < WIDTH
        invariant
            0 < list.len() <= WIDTH,
            nodes.len() <= u32::MAX,
            all_linked_after(nodes@, limit, list@, node_idx as int),
            trees_size(nodes@, list@) <= size(nodes@, node_idx as int),
            forall|rules: BuildRules| #[trigger]
                rules.describe(*math) ==> widened(rules, nodes@, start) == widened(rules, nodes@, list@),
            !open ==> forall|rules: BuildRules| #[trigger]
                rules.describe(*math) ==> widened(rules, nodes@, list@) == list@,
        decreases WIDTH - list.len(), (if open { 1int } else { 0int }),
    {
        match find_largest(math, nodes, &list) {
            Some(i) => {
                let ghost before = list@;
                let left: usize = nodes[list[i]].left_first as usize;
                let last: usize = list.len() - 1;
                assert(is_linked(nodes@, limit, before[i as int] as int));
                assert(is_linked(nodes@, limit, before[last as int] as int));
                list[i] = list[last];
                list.pop();
                list.push(left);
                list.push(left + 1);
                proof {
                    assert(list@ =~= opened(nodes@, before, i as int));
                    lemma_trees_size_opened(nodes@, before, i as int);
                    assert forall|j: int| 0 <= j < list.len() implies node_idx < #[trigger] list[j] && is_linked(
                        nodes@,
                        limit,
                        list[j] as int,
                    ) by {
                        if j < before.len() - 1 && j != i {
                            assert(list@[j] == before[j]);
                        }
                    }
                }
            },
            None => {
                open = false;
            },
        }
    }
    list
}

/// The octants of the nodes of a list around the middle of their spread.
fn find_octants<M: Arith>(math: &M, nodes: &Vec<BvhNode>, list: &Vec<usize>) -> (r: Vec<usize>)
    requires
        forall|j: int| 0 <= j < list.len() ==> #[trigger] list[j] < nodes.len(),
    ensures
        r.len() == list.len(),
        forall|j: int| 0 <= j < r.len() ==> #[trigger] r[j] < WIDTH,
        forall|rules: BuildRules| #[trigger] rules.describe(*math) ==> r@ == octants(rules, nodes@, list@),
{
    let far = Scalar::max_finite();
    let near = Scalar::neg_infinity();
    let mut b = AABB { min: Point3 { x: far, y: far, z: far }, max: Point3 { x: near, y: near, z: near } };
    let mut i: usize = 0;
    assert(list@.take(0) =~= Seq::<usize>::empty());
    while i < list.len()
        invariant
            i <= list.len(),
            forall|j: int| 0 <= j < list.len() ==> #[trigger] list[j] < nodes.len(),
            b == spread(nodes@, list@.take(i as int)),
        decreases list.len() - i,
    {
        let a = nodes[list[i]].aabb;
        b = AABB {
            min: Point3 {
                x: lesser(b.min.x, a.min.x),
                y: lesser(b.min.y, a.min.y),
                z: lesser(b.min.z, a.min.z),
            },
            max: Point3 {
                x: greater(b.max.x, a.max.x),
                y: greater(b.max.y, a.max.y),
                z: greater(b.max.z, a.max.z),
            },
        };
        assert(list@.take(i + 1).drop_last() =~= list@.take(i as int));
        i = i + 1;
    }
    assert(list@.take(i as int) =~= list@);
    let center = Point3 {
        x: middle(math, b.min.x, b.max.x),
        y: middle(math, b.min.y, b.max.y),
        z: middle(math, b.min.z, b.max.z),
    };
    let mut octs: Vec<usize> = Vec::new();
    let mut i: usize = 0;
    while i < list.len()
        invariant
            i <= list.len(),
            octs.len() == i,
            forall|j: int| 0 <= j < list.len() ==> #[trigger] list[j] < nodes.len(),
            forall|j: int| 0 <= j < i ==> #[trigger] octs[j] < WIDTH,
            b == spread(nodes@, list@),
            forall|rules: BuildRules| #[trigger] rules.describe(*math) ==> center == middle_of(rules, b),
            forall|rules: BuildRules, j: int|
                #![trigger rules.describe(*math), octs[j]]
                rules.describe(*math) && 0 <= j < i ==> octs[j] == octants(rules, nodes@, list@)[j],
        decreases list.len() - i,
    {
        let a = nodes[list[i]].aabb;
        let p = Point3 {
            x: middle(math, a.min.x, a.max.x),
            y: middle(math, a.min.y, a.max.y),
            z: middle(math, a.min.z, a.max.z),
        };
        octs.push(octant(center, p));
        i = i + 1;
    }
    proof {
        assert forall|rules: BuildRules| #[trigger] rules.describe(*math) implies octs@ == octants(
            rules,
            nodes@,
            list@,
        ) by {
            assert(octs@ =~= octants(rules, nodes@, list@));
        }
    }
    octs
}

/// What the first `n` slots cost, if each position has a cost.
pub open spec fn slots_cost(s: Seq<Option<usize>>, cost: spec_fn(usize) -> nat, n: nat) -> nat
    decreases n,
{
    if n == 0 {
        0
    } else {
        slots_cost(s, cost, (n - 1) as nat) + (match s[n - 1] {
            Some(j) => cost(j),
            None => 0,
        })
    }
}

/// What listed positions cost.
pub open spec fn list_cost(w: Seq<usize>, cost: spec_fn(usize) -> nat) -> nat
    decreases w.len(),
{
    if w.len() == 0 {
        0
    } else {
        list_cost(w.drop_last(), cost) + cost(w.last())
    }
}

/// What the positions below `n` cost.
pub open spec fn range_cost(cost: spec_fn(usize) -> nat, n: nat) -> nat
    decreases n,
{
    if n == 0 {
        0
    } else {
        range_cost(cost, (n - 1) as nat) + cost((n - 1) as usize)
    }
}

proof fn lemma_slots_cost_update(s: Seq<Option<usize>>, cost: spec_fn(usize) -> nat, k: int, x: usize, n: nat)
    requires
        0 <= k < s.len(),
        n <= s.len(),
        s[k] is None,
    ensures
        slots_cost(s.update(k, Some(x)), cost, n) == slots_cost(s, cost, n) + (if k < n {
            cost(x)
        } else {
            0
        }),
    decreases n,
{
    if n > 0 {
        lemma_slots_cost_update(s, cost, k, x, (n - 1) as nat);
    }
}

proof fn lemma_slots_cost_none(cost: spec_fn(usize) -> nat, n: nat)
    requires
        n <= WIDTH,
    ensures
        slots_cost(no_slots(), cost, n) == 0,
    decreases n,
{
    if n > 0 {
        lemma_slots_cost_none(cost, (n - 1) as nat);
    }
}

proof fn lemma_seated_cost(octs: Seq<usize>, cost: spec_fn(usize) -> nat, n: nat)
    requires
        n <= octs.len() <= WIDTH,
        forall|j: int| 0 <= j < octs.len() ==> #[trigger] octs[j] < WIDTH,
    ensures
        slots_cost(seated(octs, n), cost, WIDTH as nat) + list_cost(waiting(octs, n), cost) == range_cost(cost, n),
    decreases n,
{
    if n == 0 {
        lemma_slots_cost_none(cost, WIDTH as nat);
    } else {
        let m = (n - 1) as nat;
        lemma_seated_cost(octs, cost, m);
        lemma_seated(octs, m);
        let s = seated(octs, m);
        let w = waiting(octs, m);
        if s[octs[n - 1] as int] is None {
            lemma_slots_cost_update(s, cost, octs[n - 1] as int, m as usize, WIDTH as nat);
        } else {
            assert(w.push(m as usize).drop_last() =~= w);
        }
    }
}

proof fn lemma_filled_cost(s: Seq<Option<usize>>, cost: spec_fn(usize) -> nat, w: Seq<usize>)
    requires
        s.len() == WIDTH,
        taken(s, WIDTH as nat) + w.len() <= WIDTH,
        is_one_to_one(s),
        forall|q: int| 0 <= q < w.len() ==> !has_slot(s, #[trigger] w[q]),
        forall|q: int, r: int| 0 <= q < r < w.len() ==> #[trigger] w[q] < #[trigger] w[r],
    ensures
        slots_cost(filled(s, w), cost, WIDTH as nat) == slots_cost(s, cost, WIDTH as nat) + list_cost(w, cost),
    decreases w.len(),
{
    if w.len() > 0 {
        let v = w.drop_last();
        lemma_filled_cost(s, cost, v);
        lemma_filled(s, v);
        lemma_first_free(filled(s, v), 0);
        lemma_slots_cost_update(filled(s, v), cost, first_free(filled(s, v), 0), w.last(), WIDTH as nat);
    }
}

/// The slots cost what the positions cost.
pub proof fn lemma_slots_of_cost(octs: Seq<usize>, cost: spec_fn(usize) -> nat)
    requires
        octs.len() <= WIDTH,
        forall|j: int| 0 <= j < octs.len() ==> #[trigger] octs[j] < WIDTH,
    ensures
        slots_cost(slots_of(octs), cost, WIDTH as nat) == range_cost(cost, octs.len()),
{
    let n = octs.len();
    lemma_seated(octs, n);
    let s = seated(octs, n);
    let w = waiting(octs, n);
    assert forall|q: int| 0 <= q < w.len() implies !has_slot(s, #[trigger] w[q]) by {
        if has_slot(s, w[q]) {
            let k = choose|k: int| 0 <= k < s.len() && s[k] == Some(w[q]);
            assert(octs[w[q] as int] == k);
        }
    }
    lemma_seated_cost(octs, cost, n);
    lemma_filled_cost(s, cost, w);
}

proof fn lemma_trees_size_range(nodes: Seq<BvhNode>, list: Seq<usize>, n: nat)
    requires
        n <= list.len(),
        list.len() <= WIDTH,
    ensures
        range_cost(|j: usize| 1 + size(nodes, list[j as int] as int), n) == trees_size(nodes, list.take(n as int)),
    decreases n,
{
    if n > 0 {
        lemma_trees_size_range(nodes, list, (n - 1) as nat);
        assert(list.take(n as int).drop_last() =~= list.take(n - 1));
    } else {
        assert(list.take(0) =~= Seq::<usize>::empty());
    }
}

proof fn lemma_slots_cost_prefix(s: Seq<Option<usize>>, cost: spec_fn(usize) -> nat, a: nat, b: nat)
    requires
        a <= b,
    ensures
        slots_cost(s, cost, a) <= slots_cost(s, cost, b),
    decreases b,
{
    if a < b {
        lemma_slots_cost_prefix(s, cost, a, (b - 1) as nat);
    }
}

/// The node, if any, that becomes the child of a wide node in a slot.
pub open spec fn wide_child(rules: BuildRules, nodes: Seq<BvhNode>, i: int, slot: int) -> Option<int> {
    let list = frontier(rules, nodes, i);
    match slots_of(octants(rules, nodes, list))[slot] {
        Some(j) => Some(list[j as int] as int),
        None => None,
    }
}

/// Number of wide nodes made of a node, itself first and then what its children
/// in the slots before `slot` are made into.
pub open spec fn wide_nodes(rules: BuildRules, nodes: Seq<BvhNode>, i: int, slot: nat) -> nat
    decreases nodes.len() - i, slot,
{
    if slot == 0 {
        1
    } else {
        wide_nodes(rules, nodes, i, (slot - 1) as nat) + (match wide_child(rules, nodes, i, slot - 1) {
            Some(d) => if i < d < nodes.len() && !nodes[d].is_leaf() {
                wide_nodes(rules, nodes, d, WIDTH as nat)
            } else {
                0
            },
            None => 0,
        })
    }
}

/// Whether a slot of the wide node at `at`, made of the node at `i`, holds what
/// belongs there: the box of the child and, for a leaf, a reference to its
/// chunks, else the index of the wide node made of it.
pub open spec fn is_slot_collapsed(
    rules: BuildRules,
    nodes: Seq<BvhNode>,
    i: int,
    reference: u32,
    aabb: AABB,
    wide: Seq<Bvh8Node>,
    at: int,
    slot: int,
) -> bool
    decreases nodes.len() - i, 0int,
{
    match wide_child(rules, nodes, i, slot) {
        None => reference == NO_CHILD && aabb == nan_box(),
        Some(d) => {
            &&& aabb == nodes[d].aabb
            &&& if nodes[d].is_leaf() {
                reference == leaf_reference(nodes[d].left_first, nodes[d].chunk_count)
            } else if i < d < nodes.len() {
                &&& reference == at + wide_nodes(rules, nodes, i, slot as nat)
                &&& is_collapsed(rules, nodes, d, wide, at + wide_nodes(rules, nodes, i, slot as nat))
            } else {
                false
            }
        },
    }
}

/// Whether the wide node at `at` is made of the node at `i`. What its children
/// are made of lies after it, in the order of the slots.
pub open spec fn is_collapsed(rules: BuildRules, nodes: Seq<BvhNode>, i: int, wide: Seq<Bvh8Node>, at: int) -> bool
    decreases nodes.len() - i, 1int,
{
    &&& 0 <= at
    &&& at + wide_nodes(rules, nodes, i, WIDTH as nat) <= wide.len()
    &&& forall|slot: int|
        #![trigger wide[at].children[slot]]
        0 <= slot < WIDTH ==> is_slot_collapsed(
            rules,
            nodes,
            i,
            wide[at].children[slot],
            wide[at].child_box(slot),
            wide,
            at,
            slot,
        )
}

proof fn lemma_wide_nodes_prefix(rules: BuildRules, nodes: Seq<BvhNode>, i: int, a: nat, b: nat)
    requires
        a <= b,
    ensures
        wide_nodes(rules, nodes, i, a) <= wide_nodes(rules, nodes, i, b),
        wide_nodes(rules, nodes, i, a) >= 1,
    decreases b,
{
    if a < b {
        lemma_wide_nodes_prefix(rules, nodes, i, a, (b - 1) as nat);
    } else if a > 0 {
        lemma_wide_nodes_prefix(rules, nodes, i, (a - 1) as nat, (a - 1) as nat);
    }
}

pub proof fn lemma_collapsed_slot(
    rules: BuildRules,
    nodes: Seq<BvhNode>,
    i: int,
    wide: Seq<Bvh8Node>,
    at: int,
    slot: int,
)
    requires
        is_collapsed(rules, nodes, i, wide, at),
        0 <= slot < WIDTH,
    ensures
        is_slot_collapsed(
            rules,
            nodes,
            i,
            wide[at].children[slot],
            wide[at].child_box(slot),
            wide,
            at,
            slot,
        ),
{
    assert(wide[at].children[slot] == wide[at].children[slot]);
}

proof fn lemma_collapsed_whole(rules: BuildRules, nodes: Seq<BvhNode>, i: int, wide: Seq<Bvh8Node>, at: int)
    requires
        0 <= at,
        at + wide_nodes(rules, nodes, i, WIDTH as nat) <= wide.len(),
        forall|slot: int|
            #![trigger wide[at].children[slot]]
            0 <= slot < WIDTH ==> is_slot_collapsed(
            rules,
            nodes,
            i,
            wide[at].children[slot],
            wide[at].child_box(slot),
            wide,
            at,
            slot,
        ),
    ensures
        is_collapsed(rules, nodes, i, wide, at),
{
}

/// What a slot holds stays so when other wide nodes change.
proof fn lemma_slot_frame(
    rules: BuildRules,
    nodes: Seq<BvhNode>,
    i: int,
    reference: u32,
    aabb: AABB,
    wide: Seq<Bvh8Node>,
    wide2: Seq<Bvh8Node>,
    at: int,
    slot: int,
)
    requires
        is_slot_collapsed(rules, nodes, i, reference, aabb, wide, at, slot),
        0 <= at,
        0 <= slot < WIDTH,
        wide.len() <= wide2.len(),
        forall|j: int|
            at < j < at + wide_nodes(rules, nodes, i, (slot + 1) as nat) ==> #[trigger] wide2[j] == wide[j],
    ensures
        is_slot_collapsed(rules, nodes, i, reference, aabb, wide2, at, slot),
    decreases nodes.len() - i, 0int,
{
    match wide_child(rules, nodes, i, slot) {
        None => {},
        Some(d) => {
            if !nodes[d].is_leaf() {
                let to = at + wide_nodes(rules, nodes, i, slot as nat);
                lemma_wide_nodes_prefix(rules, nodes, i, slot as nat, slot as nat);
                assert(wide_nodes(rules, nodes, i, (slot + 1) as nat) == wide_nodes(rules, nodes, i, slot as nat)
                    + wide_nodes(rules, nodes, d, WIDTH as nat));
                lemma_wide_nodes_prefix(rules, nodes, d, 0, WIDTH as nat);
                assert(wide2[to] == wide[to]);
                assert forall|k: int|
                    #![trigger wide2[to].children[k]]
                    0 <= k < WIDTH implies is_slot_collapsed(
                        rules,
                        nodes,
                        d,
                        wide2[to].children[k],
                        wide2[to].child_box(k),
                        wide2,
                        to,
                        k,
                    ) by {
                    lemma_collapsed_slot(rules, nodes, d, wide, to, k);
                    lemma_wide_nodes_prefix(rules, nodes, d, (k + 1) as nat, WIDTH as nat);
                    lemma_slot_frame(
                        rules,
                        nodes,
                        d,
                        wide[to].children[k],
                        wide[to].child_box(k),
                        wide,
                        wide2,
                        to,
                        k,
                    );
                }
                lemma_collapsed_whole(rules, nodes, d, wide2, to);
            }
        },
    }
}

/// Whether a reference in the wide node at `at` can be followed: to nothing, to
/// chunks that exist, or to a later wide node.
pub open spec fn is_valid_reference(reference: u32, at: int, wide_count: int, chunks: int) -> bool {
    ||| reference == NO_CHILD
    ||| Bvh8Node::is_leaf(reference) && Bvh8Node::leaf_start(reference) + Bvh8Node::leaf_count(reference) <= chunks
    ||| !Bvh8Node::is_leaf(reference) && at < reference < wide_count
}

/// Whether all references of the wide nodes from `from` on can be followed.
pub open spec fn are_valid_nodes(wide: Seq<Bvh8Node>, from: int, chunks: int) -> bool {
    forall|at: int, slot: int|
        #![trigger wide[at].children[slot]]
        from <= at < wide.len() && 0 <= slot < WIDTH ==> is_valid_reference(
            wide[at].children[slot],
            at,
            wide.len() as int,
            chunks,
        )
}

/// The reference to a leaf names no chunk beyond its own.
proof fn lemma_leaf_reference_valid(start: u32, count: u32, chunks: int)
    requires
        start + count <= chunks <= MAX_CHUNKS,
        count > 0,
    ensures
        Bvh8Node::is_leaf(leaf_reference(start, count)),
        Bvh8Node::leaf_start(leaf_reference(start, count)) + Bvh8Node::leaf_count(leaf_reference(start, count))
            <= chunks,
{
    let e: u32 = start | (count << 24) | 0x8000_0000;
    assert(e >= 0x8000_0000 && e % 0x0100_0000 == start && (e / 0x0100_0000) % 128 <= count) by (bit_vector)
        requires
            e == start | (count << 24) | 0x8000_0000,
            start < 0x0100_0000,
    ;
}

/// Whether a slot of a wide node is as it is in a new one.
spec fn is_blank(node: Bvh8Node, slot: int) -> bool {
    node.children[slot] == NO_CHILD && node.child_box(slot) == nan_box()
}

/// Makes wide nodes of a node and all under it, and says where the first lies.
pub(crate) fn collapse_to_bvh8<M: Arith>(
    math: &M,
    node_idx: usize,
    bvh2: &Vec<BvhNode>,
    Ghost(chunks): Ghost<int>,
    bvh8: &mut Vec<Bvh8Node>,
) -> (r: u32)
    requires
        is_linked(bvh2@, chunks, node_idx as int),
        chunks <= MAX_CHUNKS,
        bvh2.len() <= u32::MAX,
        old(bvh8).len() + 1 + size(bvh2@, node_idx as int) <= LEAF_FLAG,
        are_valid_nodes(old(bvh8)@, old(bvh8).len() as int, chunks),
    ensures
        r == old(bvh8).len(),
        old(bvh8).len() < final(bvh8).len() <= old(bvh8).len() + 1 + size(bvh2@, node_idx as int),
        forall|j: int| 0 <= j < old(bvh8).len() ==> #[trigger] final(bvh8)[j] == old(bvh8)[j],
        are_valid_nodes(final(bvh8)@, old(bvh8).len() as int, chunks),
        forall|rules: BuildRules| #[trigger]
            rules.describe(*math) ==> is_collapsed(rules, bvh2@, node_idx as int, final(bvh8)@, r as int)
                && final(bvh8).len() == r + wide_nodes(rules, bvh2@, node_idx as int, WIDTH as nat),
    decreases bvh2.len() - node_idx,
{
    let at: usize = bvh8.len();
    let ghost wide0 = bvh8@;
    let ghost i = node_idx as int;
    bvh8.push(Bvh8Node::default());
    let list = find_frontier(math, bvh2, Ghost(chunks), node_idx);
    proof {
        assert forall|j: int| 0 <= j < list.len() implies #[trigger] list[j] < bvh2.len() && is_linked(
            bvh2@,
            chunks,
            list[j] as int,
        ) && (!bvh2[list[j] as int].is_leaf() ==> node_idx < list[j]) by {}
    }
    let octs = find_octants(math, bvh2, &list);
    let slots = assign_slots(&octs);
    let ghost cost = |j: usize| 1 + size(bvh2@, list@[j as int] as int);
    proof {
        law_slots_match_nodes(octs@);
        lemma_slots_of_cost(octs@, cost);
        lemma_trees_size_range(bvh2@, list@, list@.len());
        assert(list@.take(list@.len() as int) =~= list@);
    }
    let mut node8 = Bvh8Node::default();
    let mut slot: usize = 0;
    while slot < WIDTH
        invariant
            slot <= WIDTH,
            i == node_idx,
            at == wide0.len(),
            wide0 == old(bvh8)@,
            at < bvh8.len(),
            chunks <= MAX_CHUNKS,
            bvh2.len() <= u32::MAX,
            is_linked(bvh2@, chunks, i),
            at + 1 + size(bvh2@, i) <= LEAF_FLAG,
            octs.len() == list.len(),
            slots@ == slots_of(octs@),
            slots@.len() == WIDTH,
            forall|j: usize| has_slot(slots@, j) <==> j < octs.len(),
            forall|j: int|
                0 <= j < list.len() ==> #[trigger] list[j] < bvh2.len() && is_linked(bvh2@, chunks, list[j] as int)
                    && (!bvh2[list[j] as int].is_leaf() ==> node_idx < list[j]),
            cost == (|j: usize| 1 + size(bvh2@, list@[j as int] as int)),
            bvh2[i].is_leaf() ==> forall|j: int| 0 <= j < list.len() ==> bvh2[#[trigger] list[j] as int].is_leaf(),
            !bvh2[i].is_leaf() ==> slots_cost(slots@, cost, WIDTH as nat) <= size(bvh2@, i),
            bvh8.len() <= at + 1 + (if bvh2[i].is_leaf() {
                0
            } else {
                slots_cost(slots@, cost, slot as nat)
            }),
            forall|j: int| 0 <= j < at ==> #[trigger] bvh8[j] == wide0[j],
            are_valid_nodes(bvh8@, at + 1, chunks),
            forall|k: int|
                0 <= k < WIDTH ==> is_valid_reference(
                    #[trigger] node8.children[k],
                    at as int,
                    bvh8.len() as int,
                    chunks,
                ),
            forall|k: int| slot <= k < WIDTH ==> #[trigger] is_blank(node8, k),
            forall|rules: BuildRules| #[trigger]
                rules.describe(*math) ==> list@ == frontier(rules, bvh2@, i) && octs@ == octants(
                    rules,
                    bvh2@,
                    list@,
                ) && bvh8.len() == at + wide_nodes(rules, bvh2@, i, slot as nat),
            forall|rules: BuildRules, k: int|
                #![trigger rules.describe(*math), node8.children[k]]
                rules.describe(*math) && 0 <= k < slot ==> is_slot_collapsed(
                    rules,
                    bvh2@,
                    i,
                    node8.children[k],
                    node8.child_box(k),
                    bvh8@,
                    at as int,
                    k,
                ),
        decreases WIDTH - slot,
    {
        let ghost before = bvh8@;
        let ghost node_before = node8;
        proof {
            lemma_slots_cost_prefix(slots@, cost, (slot + 1) as nat, WIDTH as nat);
        }
        if let Some(j) = slots[slot] {
            assert(has_slot(slots@, j));
            let c: usize = list[j];
            let node = bvh2[c];
            assert(is_linked(bvh2@, chunks, c as int));
            let reference: u32 = if node.is_leaf() {
                proof {
                    lemma_leaf_reference_valid(node.left_first, node.chunk_count, chunks);
                }
                Bvh8Node::encode_leaf(node.left_first, node.chunk_count)
            } else {
                collapse_to_bvh8(math, c, bvh2, Ghost(chunks), bvh8)
            };
            node8.set_child(slot, &node.aabb, reference);
        }
        proof {
            assert forall|k: int| slot + 1 <= k < WIDTH implies #[trigger] is_blank(node8, k) by {
                assert(is_blank(node_before, k));
            }
            assert(is_blank(node_before, slot as int));
            assert forall|rules: BuildRules, k: int|
                #![trigger rules.describe(*math), node8.children[k]]
                rules.describe(*math) && 0 <= k < slot + 1 implies is_slot_collapsed(
                rules,
                bvh2@,
                i,
                node8.children[k],
                node8.child_box(k),
                bvh8@,
                at as int,
                k,
            ) by {
                if k < slot {
                    assert(is_slot_collapsed(
                        rules,
                        bvh2@,
                        i,
                        node_before.children[k],
                        node_before.child_box(k),
                        before,
                        at as int,
                        k,
                    )) by {
                        assert(node_before.children[k] == node8.children[k]);
                    }
                    lemma_wide_nodes_prefix(rules, bvh2@, i, (k + 1) as nat, slot as nat);
                    lemma_slot_frame(
                        rules,
                        bvh2@,
                        i,
                        node_before.children[k],
                        node_before.child_box(k),
                        before,
                        bvh8@,
                        at as int,
                        k,
                    );
                } else {
                    assert(wide_child(rules, bvh2@, i, k) == match slots@[k] {
                        Some(j) => Some(list@[j as int] as int),
                        None => None,
                    });
                }
            }
        }
        slot = slot + 1;
    }
    let ghost before = bvh8@;
    bvh8[at] = node8;
    proof {
        assert forall|rules: BuildRules| #[trigger] rules.describe(*math) implies is_collapsed(
            rules,
            bvh2@,
            i,
            bvh8@,
            at as int,
        ) by {
            assert forall|k: int|
                #![trigger bvh8@[at as int].children[k]]
                0 <= k < WIDTH implies is_slot_collapsed(
                rules,
                bvh2@,
                i,
                bvh8@[at as int].children[k],
                bvh8@[at as int].child_box(k),
                bvh8@,
                at as int,
                k,
            ) by {
                assert(node8.children[k] == bvh8@[at as int].children[k]);
                lemma_wide_nodes_prefix(rules, bvh2@, i, (k + 1) as nat, WIDTH as nat);
                lemma_slot_frame(
                    rules,
                    bvh2@,
                    i,
                    node8.children[k],
                    node8.child_box(k),
                    before,
                    bvh8@,
                    at as int,
                    k,
                );
            }
            lemma_collapsed_whole(rules, bvh2@, i, bvh8@, at as int);
        }
    }
    at as u32
}

/// What is opened first is the largest node with children: no other in the list has
/// a larger area, and a list without such nodes is left as it is.
pub proof fn law_largest_is_opened(rules: BuildRules, nodes: Seq<BvhNode>, list: Seq<usize>, n: nat, j: int)
    requires
        n <= list.len(),
        0 <= j < n,
    ensures
        ({
            let (at, area) = largest_inner(rules, nodes, list, n);
            let node = nodes[list[j] as int];
            &&& at matches Some(i) ==> {
                &&& 0 <= i < n
                &&& !nodes[list[i] as int].is_leaf()
                &&& area == (rules.surface_area)(nodes[list[i] as int].aabb)
            }
            &&& !node.is_leaf() ==> !area.lt((rules.surface_area)(node.aabb))
            &&& !node.is_leaf() && Scalar::zero().le((rules.surface_area)(node.aabb)) ==> at is Some
        }),
    decreases n,
{
    lemma_area_is_number(rules, nodes, list, (n - 1) as nat);
    lemma_largest_so_far(rules, nodes, list, (n - 1) as nat);
    if j < n - 1 {
        law_largest_is_opened(rules, nodes, list, (n - 1) as nat, j);
    }
}

proof fn lemma_area_is_number(rules: BuildRules, nodes: Seq<BvhNode>, list: Seq<usize>, n: nat)
    ensures
        largest_inner(rules, nodes, list, n).1.ordered(),
        largest_inner(rules, nodes, list, n).0 is None ==> largest_inner(rules, nodes, list, n).1 == below_areas(),
    decreases n,
{
    if n > 0 {
        lemma_area_is_number(rules, nodes, list, (n - 1) as nat);
    }
}

proof fn lemma_largest_so_far(rules: BuildRules, nodes: Seq<BvhNode>, list: Seq<usize>, n: nat)
    ensures
        largest_inner(rules, nodes, list, n).0 matches Some(i) ==> {
            &&& 0 <= i < n
            &&& !nodes[list[i] as int].is_leaf()
            &&& largest_inner(rules, nodes, list, n).1 == (rules.surface_area)(nodes[list[i] as int].aabb)
        },
    decreases n,
{
    if n > 0 {
        lemma_largest_so_far(rules, nodes, list, (n - 1) as nat);
    }
}

} // verus!
