//! Sequences that hold the same items in another order.
use vstd::prelude::*;
use vstd::seq_lib::{lemma_multiset_commutative, to_multiset_contains, to_multiset_insert, to_multiset_len, to_multiset_remove};

verus! {

/// Whether `t` is `s` with the items from `a` up to `b` in another order.
pub open spec fn rearranged<T>(s: Seq<T>, t: Seq<T>, a: int, b: int) -> bool {
    &&& s.len() == t.len()
    &&& forall|i: int| 0 <= i < s.len() && !(a <= i < b) ==> #[trigger] t[i] == s[i]
    &&& s.subrange(a, b).to_multiset() == t.subrange(a, b).to_multiset()
}

pub proof fn lemma_update_multiset<T>(s: Seq<T>, i: int, x: T)
    requires
        0 <= i < s.len(),
    ensures
        s.update(i, x).to_multiset() == s.to_multiset().remove(s[i]).insert(x),
{
    assert(s.update(i, x) =~= s.remove(i).insert(i, x));
    to_multiset_insert(s.remove(i), i, x);
    to_multiset_remove(s, i);
}

/// Swapping two items rearranges any range that holds both.
pub proof fn lemma_swap_rearranges<T>(s: Seq<T>, i: int, j: int, a: int, b: int)
    requires
        0 <= a <= i < b,
        a <= j < b <= s.len(),
    ensures
        rearranged(s, s.update(i, s[j]).update(j, s[i]), a, b),
{
    let t = s.update(i, s[j]).update(j, s[i]);
    let p = s.subrange(a, b);
    let q = p.update(i - a, p[j - a]).update(j - a, p[i - a]);
    assert(t.subrange(a, b) =~= q);
    lemma_update_multiset(p, i - a, p[j - a]);
    lemma_update_multiset(p.update(i - a, p[j - a]), j - a, p[i - a]);
    assert(p.contains(p[i - a]));
    assert(p.contains(p[j - a]));
    to_multiset_contains(p, p[i - a]);
    to_multiset_contains(p, p[j - a]);
    assert(q.to_multiset() =~= p.to_multiset());
}

pub proof fn lemma_rearranged_transitive<T>(s: Seq<T>, t: Seq<T>, u: Seq<T>, a: int, b: int)
    requires
        rearranged(s, t, a, b),
        rearranged(t, u, a, b),
    ensures
        rearranged(s, u, a, b),
{
    assert forall|i: int| 0 <= i < s.len() && !(a <= i < b) implies #[trigger] u[i] == s[i] by {
        assert(t[i] == s[i]);
    }
}

/// What rearranges a range rearranges every range around it.
pub proof fn lemma_rearranged_wider<T>(s: Seq<T>, t: Seq<T>, a: int, b: int, lo: int, hi: int)
    requires
        rearranged(s, t, a, b),
        0 <= lo <= a <= b <= hi <= s.len(),
    ensures
        rearranged(s, t, lo, hi),
{
    let p = s.subrange(lo, a);
    let m = s.subrange(a, b);
    let q = s.subrange(b, hi);
    let n = t.subrange(a, b);
    assert(s.subrange(lo, hi) =~= p + (m + q));
    assert(t.subrange(lo, a) =~= p);
    assert(t.subrange(b, hi) =~= q);
    assert(t.subrange(lo, hi) =~= p + (n + q));
    lemma_multiset_commutative(p, m + q);
    lemma_multiset_commutative(m, q);
    lemma_multiset_commutative(p, n + q);
    lemma_multiset_commutative(n, q);
}

/// Each item of a rearranged range was in it before.
pub proof fn lemma_rearranged_items<T>(s: Seq<T>, t: Seq<T>, a: int, b: int, i: int) -> (j: int)
    requires
        rearranged(s, t, a, b),
        0 <= a <= i < b <= s.len(),
    ensures
        a <= j < b,
        t[i] == s[j],
{
    let p = s.subrange(a, b);
    let q = t.subrange(a, b);
    assert(q[i - a] == t[i]);
    assert(q.contains(t[i]));
    to_multiset_contains(q, t[i]);
    to_multiset_contains(p, t[i]);
    let k = choose|k: int| 0 <= k < p.len() && p[k] == t[i];
    a + k
}

/// What is made of the items, one by one, is made whatever their order.
pub proof fn lemma_map_rearranged<A, B>(s: Seq<A>, t: Seq<A>, f: spec_fn(A) -> B)
    requires
        s.to_multiset() == t.to_multiset(),
    ensures
        s.map_values(f).to_multiset() == t.map_values(f).to_multiset(),
    decreases s.len(),
{
    to_multiset_len(s);
    to_multiset_len(t);
    if s.len() == 0 {
        assert(s.map_values(f) =~= t.map_values(f));
    } else {
        let n = s.len() - 1;
        assert(s[n] == s.last() && s.contains(s.last()));
        to_multiset_contains(s, s.last());
        to_multiset_contains(t, s.last());
        let j = choose|j: int| 0 <= j < t.len() && t[j] == s.last();
        to_multiset_remove(s, n);
        to_multiset_remove(t, j);
        lemma_map_rearranged(s.remove(n), t.remove(j), f);
        assert(s.remove(n).map_values(f) =~= s.map_values(f).remove(n));
        assert(t.remove(j).map_values(f) =~= t.map_values(f).remove(j));
        to_multiset_remove(s.map_values(f), n);
        to_multiset_remove(t.map_values(f), j);
        let x = f(s.last());
        assert(s.map_values(f)[n] == x && t.map_values(f)[j] == x);
        assert(s.map_values(f).contains(x));
        assert(t.map_values(f).contains(x));
        to_multiset_contains(s.map_values(f), x);
        to_multiset_contains(t.map_values(f), x);
        assert(s.map_values(f).to_multiset() =~= s.map_values(f).to_multiset().remove(x).insert(x));
        assert(t.map_values(f).to_multiset() =~= t.map_values(f).to_multiset().remove(x).insert(x));
    }
}

/// Swaps two items of a vector.
pub fn swap_items<T: Copy>(v: &mut Vec<T>, i: usize, j: usize)
    requires
        i < old(v).len(),
        j < old(v).len(),
    ensures
        final(v)@ == old(v)@.update(i as int, old(v)@[j as int]).update(j as int, old(v)@[i as int]),
{
    let a = v[i];
    let b = v[j];
    v[i] = b;
    v[j] = a;
}

} // verus!
