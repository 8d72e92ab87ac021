//! The partition of the tasks of a graph into levels, and what holds of it.

use vstd::prelude::*;
use crate::graph::{acyclic, distinct_names, has_task, names, node_index, ranked, Node};
use crate::kahn::lemma_distinct_within;
use crate::queue_order::{appears_before, deps_before, is_permutation};

verus! {

/// `name` is in one of the first `k` levels.
pub open spec fn in_earlier_level(l: Seq<Seq<Seq<char>>>, k: int, name: Seq<char>) -> bool {
    exists|e: int| 0 <= e < k && e < l.len() && (#[trigger] l[e]).contains(name)
}

/// One of `deps` is in `level`.
pub open spec fn has_name_in(deps: Seq<Seq<char>>, level: Seq<Seq<char>>) -> bool {
    exists|j: int| 0 <= j < deps.len() && level.contains(#[trigger] deps[j])
}

/// The task at place `p` of level `k` has all its dependencies in earlier
/// levels, and one of them in the level just before.
pub open spec fn level_rule(g: Seq<Node>, l: Seq<Seq<Seq<char>>>, k: int, p: int) -> bool {
    let i = node_index(g, l[k][p]);
    &&& forall|j: int| 0 <= j < g[i].deps.len() ==> in_earlier_level(l, k, #[trigger] g[i].deps[j])
    &&& k > 0 ==> has_name_in(g[i].deps, l[k - 1])
}

/// `l` is the partition of the tasks of `g` into levels: no level is empty,
/// every task is in exactly one level, which is the first one that comes
/// after the levels of all its dependencies, and each level lists its tasks
/// in the order in which they were added to the graph.
pub open spec fn is_level_order(g: Seq<Node>, l: Seq<Seq<Seq<char>>>) -> bool {
    &&& forall|k: int| 0 <= k < l.len() ==> (#[trigger] l[k]).len() > 0
    &&& forall|k: int, p: int| 0 <= k < l.len() && 0 <= p < l[k].len() ==> has_task(g, #[trigger] l[k][p])
    &&& forall|i: int| 0 <= i < g.len() ==> in_earlier_level(l, l.len() as int, (#[trigger] g[i]).name)
    &&& forall|k1: int, pa: int, k2: int, pb: int|
        0 <= k1 < l.len() && 0 <= pa < l[k1].len() && 0 <= k2 < l.len() && 0 <= pb < l[k2].len() && #[trigger] l[k1][pa]
            == #[trigger] l[k2][pb] ==> k1 == k2 && pa == pb
    &&& forall|k: int, p: int| 0 <= k < l.len() && 0 <= p < l[k].len() ==> #[trigger] level_rule(g, l, k, p)
    &&& forall|k: int, p: int, q: int|
        0 <= k < l.len() && 0 <= p < q < l[k].len() ==> node_index(g, #[trigger] l[k][p]) < node_index(
            g,
            #[trigger] l[k][q],
        )
}

/// The levels laid end to end.
pub open spec fn concat(l: Seq<Seq<Seq<char>>>) -> Seq<Seq<char>>
    decreases l.len(),
{
    if l.len() == 0 {
        Seq::empty()
    } else {
        concat(l.drop_last()) + l.last()
    }
}

/// Where level `k` starts when the levels are laid end to end.
pub open spec fn offset(l: Seq<Seq<Seq<char>>>, k: int) -> int {
    concat(l.take(k)).len() as int
}

/// A level starts where the one before it ends.
proof fn lemma_offset_step(l: Seq<Seq<Seq<char>>>, k: int)
    requires
        0 <= k < l.len(),
    ensures
        offset(l, k + 1) == offset(l, k) + l[k].len(),
        offset(l, 0) == 0,
{
    assert(l.take(k + 1).drop_last() =~= l.take(k));
}

/// An earlier level ends before a later one starts.
proof fn lemma_offset_rises(l: Seq<Seq<Seq<char>>>, k1: int, k2: int)
    requires
        0 <= k1 < k2 <= l.len(),
    ensures
        offset(l, k1) + l[k1].len() <= offset(l, k2),
        0 <= offset(l, k1),
    decreases k2 - k1,
{
    lemma_offset_step(l, k1);
    if k1 + 1 < k2 {
        lemma_offset_rises(l, k1 + 1, k2);
    }
}

/// The task at place `p` of level `k` stands at `offset(l, k) + p`.
proof fn lemma_concat_at(l: Seq<Seq<Seq<char>>>, k: int, p: int)
    requires
        0 <= k < l.len(),
        0 <= p < l[k].len(),
    ensures
        0 <= offset(l, k) + p < concat(l).len(),
        concat(l)[offset(l, k) + p] == l[k][p],
    decreases l.len(),
{
    let rest = l.drop_last();
    if k == l.len() - 1 {
    } else {
        lemma_concat_at(rest, k, p);
        assert(rest.take(k) =~= l.take(k));
    }
}

/// Every place of the levels laid end to end is a place of one level.
proof fn lemma_concat_index(l: Seq<Seq<Seq<char>>>, q: int) -> (r: (int, int))
    requires
        0 <= q < concat(l).len(),
    ensures
        0 <= r.0 < l.len(),
        0 <= r.1 < l[r.0].len(),
        q == offset(l, r.0) + r.1,
        concat(l)[q] == l[r.0][r.1],
    decreases l.len(),
{
    let rest = l.drop_last();
    if q < concat(rest).len() {
        let r = lemma_concat_index(rest, q);
        assert(rest.take(r.0) =~= l.take(r.0));
        r
    } else {
        let k = l.len() - 1;
        (k, q - concat(rest).len())
    }
}

/// The levels of a graph, laid end to end in their order, hold every task
/// once, each after all its dependencies.
pub proof fn lemma_levels_concat_is_topological(g: Seq<Node>, l: Seq<Seq<Seq<char>>>)
    requires
        distinct_names(g),
        is_level_order(g, l),
    ensures
        is_permutation(g, concat(l)),
        forall|p: int| 0 <= p < concat(l).len() ==> #[trigger] deps_before(g, concat(l), p),
{
    let flat = concat(l);
    assert forall|x: int, y: int| 0 <= x < flat.len() && 0 <= y < flat.len() && x != y implies flat[x] != flat[y] by {
        let a = lemma_concat_index(l, x);
        let b = lemma_concat_index(l, y);
    }
    assert forall|i: int| 0 <= i < g.len() implies flat.contains((#[trigger] g[i]).name) by {
        let e = choose|e: int| 0 <= e < l.len() as int && e < l.len() && (#[trigger] l[e]).contains(g[i].name);
        let p = choose|p: int| 0 <= p < l[e].len() && l[e][p] == g[i].name;
        lemma_concat_at(l, e, p);
    }
    let all = names(g);
    assert forall|q: int| 0 <= q < flat.len() implies all.contains(#[trigger] flat[q]) by {
        let a = lemma_concat_index(l, q);
        let i = choose|i: int| 0 <= i < g.len() && #[trigger] g[i].name == flat[q];
        assert(all[i] == flat[q]);
    }
    lemma_distinct_within(flat, all);
    lemma_distinct_within(all, flat);
    assert forall|q: int| 0 <= q < flat.len() implies #[trigger] deps_before(g, flat, q) by {
        let a = lemma_concat_index(l, q);
        let k = a.0;
        let i = node_index(g, flat[q]);
        assert(level_rule(g, l, k, a.1));
        assert forall|j: int| 0 <= j < g[i].deps.len() implies appears_before(flat, #[trigger] g[i].deps[j], q) by {
            let e = choose|e: int| 0 <= e < k && e < l.len() && (#[trigger] l[e]).contains(g[i].deps[j]);
            let p = choose|p: int| 0 <= p < l[e].len() && l[e][p] == g[i].deps[j];
            lemma_concat_at(l, e, p);
            lemma_offset_rises(l, e, k);
        }
    }
}

/// Two rising sequences of numbers with the same members are the same.
proof fn lemma_rising_same(a: Seq<int>, b: Seq<int>)
    requires
        forall|x: int, y: int| 0 <= x < y < a.len() ==> a[x] < a[y],
        forall|x: int, y: int| 0 <= x < y < b.len() ==> b[x] < b[y],
        forall|x: int| a.contains(x) <==> b.contains(x),
    ensures
        a == b,
    decreases a.len(),
{
    if a.len() == 0 {
        if b.len() > 0 {
            assert(b.contains(b[0]));
        }
    } else {
        let n = a.len() - 1;
        assert(a.contains(a[n]));
        let m = b.len() - 1;
        assert(b.contains(b[m]));
        let a0 = a.drop_last();
        let b0 = b.drop_last();
        assert forall|x: int| a0.contains(x) <==> b0.contains(x) by {
            if a0.contains(x) {
                assert(a.contains(x));
                let q = choose|q: int| 0 <= q < b.len() && b[q] == x;
                assert(b0[q] == x);
            }
            if b0.contains(x) {
                assert(b.contains(x));
                let q = choose|q: int| 0 <= q < a.len() && a[q] == x;
                assert(a0[q] == x);
            }
        }
        lemma_rising_same(a0, b0);
        assert(b =~= b0.push(b[m]));
    }
}

/// A node's level in one level order is not above its level in another.
proof fn lemma_level_not_above(
    g: Seq<Node>,
    rank: Seq<nat>,
    l: Seq<Seq<Seq<char>>>,
    m: Seq<Seq<Seq<char>>>,
    i: int,
    k: int,
    e: int,
)
    requires
        distinct_names(g),
        ranked(g, rank),
        is_level_order(g, l),
        is_level_order(g, m),
        0 <= i < g.len(),
        0 <= k < l.len(),
        l[k].contains(g[i].name),
        0 <= e < m.len(),
        m[e].contains(g[i].name),
    ensures
        k <= e,
    decreases rank[i],
{
    if e < k {
        let pk = choose|p: int| 0 <= p < l[k].len() && l[k][p] == g[i].name;
        let pe = choose|p: int| 0 <= p < m[e].len() && m[e][p] == g[i].name;
        assert(level_rule(g, l, k, pk));
        assert(level_rule(g, m, e, pe));
        // a dependency in the level before `k` of `l` is in a level before `e` of `m`
        let j = choose|j: int| 0 <= j < g[i].deps.len() && l[k - 1].contains(#[trigger] g[i].deps[j]);
        let dep = g[i].deps[j];
        let f = choose|f: int| 0 <= f < e && f < m.len() && (#[trigger] m[f]).contains(dep);
        let d = choose|d: int| 0 <= d < g.len() && #[trigger] g[d].name == dep;
        lemma_level_not_above(g, rank, l, m, d, k - 1, f);
    }
}

/// A graph without cycles has at most one level order: the levels that
/// `parallel_levels` returns are determined by the graph.
pub proof fn lemma_level_order_is_unique(g: Seq<Node>, l: Seq<Seq<Seq<char>>>, m: Seq<Seq<Seq<char>>>)
    requires
        distinct_names(g),
        acyclic(g),
        is_level_order(g, l),
        is_level_order(g, m),
    ensures
        l == m,
{
    let rank = choose|rank: Seq<nat>| ranked(g, rank);
    // the same nodes are in the levels of the same index
    if l.len() < m.len() {
        let k = l.len() as int;
        lemma_level_member(g, rank, m, l, k, m[k][0]);
    }
    if m.len() < l.len() {
        let k = m.len() as int;
        lemma_level_member(g, rank, l, m, k, l[k][0]);
    }
    assert forall|k: int| 0 <= k < l.len() implies #[trigger] l[k] == m[k] by {
        assert forall|name: Seq<char>| l[k].contains(name) <==> m[k].contains(name) by {
            if l[k].contains(name) {
                lemma_level_member(g, rank, l, m, k, name);
            }
            if m[k].contains(name) {
                lemma_level_member(g, rank, m, l, k, name);
            }
        }
        lemma_level_equal(g, l, m, k);
    }
}

/// A name in level `k` of one level order is in level `k` of another.
proof fn lemma_level_member(
    g: Seq<Node>,
    rank: Seq<nat>,
    l: Seq<Seq<Seq<char>>>,
    m: Seq<Seq<Seq<char>>>,
    k: int,
    name: Seq<char>,
)
    requires
        distinct_names(g),
        ranked(g, rank),
        is_level_order(g, l),
        is_level_order(g, m),
        0 <= k < l.len(),
        l[k].contains(name),
    ensures
        k < m.len(),
        m[k].contains(name),
{
    let i = choose|i: int| 0 <= i < g.len() && #[trigger] g[i].name == name;
    let e = choose|e: int| 0 <= e < m.len() as int && e < m.len() && (#[trigger] m[e]).contains(name);
    lemma_level_not_above(g, rank, l, m, i, k, e);
    lemma_level_not_above(g, rank, m, l, i, e, k);
}

/// Two levels with the same names, each in the order of the graph, are the
/// same.
proof fn lemma_level_equal(g: Seq<Node>, l: Seq<Seq<Seq<char>>>, m: Seq<Seq<Seq<char>>>, k: int)
    requires
        distinct_names(g),
        is_level_order(g, l),
        is_level_order(g, m),
        0 <= k < l.len(),
        k < m.len(),
        forall|name: Seq<char>| l[k].contains(name) <==> m[k].contains(name),
    ensures
        l[k] == m[k],
{
    let a = Seq::new(l[k].len(), |p: int| node_index(g, l[k][p]));
    let b = Seq::new(m[k].len(), |p: int| node_index(g, m[k][p]));
    assert forall|x: int| a.contains(x) <==> b.contains(x) by {
        if a.contains(x) {
            let p = choose|p: int| 0 <= p < a.len() && a[p] == x;
            let q = choose|q: int| 0 <= q < m[k].len() && m[k][q] == l[k][p];
            assert(b[q] == x);
        }
        if b.contains(x) {
            let p = choose|p: int| 0 <= p < b.len() && b[p] == x;
            let q = choose|q: int| 0 <= q < l[k].len() && l[k][q] == m[k][p];
            assert(a[q] == x);
        }
    }
    lemma_rising_same(a, b);
    assert forall|p: int| 0 <= p < l[k].len() implies l[k][p] == m[k][p] by {
        assert(g[b[p]].name == m[k][p]);
    }
}

} // verus!
