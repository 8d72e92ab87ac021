//! The order in which Kahn's algorithm with a first-in, first-out queue
//! lets the tasks of a graph out, and what holds of it.

use vstd::prelude::*;
use crate::graph::{acyclic, dangling, distinct_names, has_task, names, node_index, ranked, Node};
use crate::kahn::lemma_distinct_within;

verus! {

/// `name` occurs in `order` before position `p`.
pub open spec fn appears_before(order: Seq<Seq<char>>, name: Seq<char>, p: int) -> bool {
    exists|q: int| 0 <= q < p && q < order.len() && #[trigger] order[q] == name
}

/// Position in `order` of the name of `deps` that comes last, or -1 for an
/// empty list.
pub open spec fn last_pos(deps: Seq<Seq<char>>, order: Seq<Seq<char>>) -> int
    decreases deps.len(),
{
    if deps.len() == 0 {
        -1
    } else {
        let r = last_pos(deps.drop_last(), order);
        let p = order.index_of(deps.last());
        if p > r {
            p
        } else {
            r
        }
    }
}

/// Every dependency of the task at position `p` of `order` stands before it.
pub open spec fn deps_before(g: Seq<Node>, order: Seq<Seq<char>>, p: int) -> bool {
    let i = node_index(g, order[p]);
    forall|j: int| 0 <= j < g[i].deps.len() ==> appears_before(order, #[trigger] g[i].deps[j], p)
}

/// The task at position `p` left the queue before the one at `q` for the
/// queue's reason: the last of its dependencies came out earlier, or at the
/// same position while it was added to the graph first.
pub open spec fn fifo_at(g: Seq<Node>, order: Seq<Seq<char>>, p: int, q: int) -> bool {
    let i = node_index(g, order[p]);
    let k = node_index(g, order[q]);
    let ti = last_pos(g[i].deps, order);
    let tk = last_pos(g[k].deps, order);
    ti < tk || (ti == tk && i < k)
}

/// Every dependency of node `i` is in `order`.
pub open spec fn deps_in(g: Seq<Node>, order: Seq<Seq<char>>, i: int) -> bool {
    forall|j: int| 0 <= j < g[i].deps.len() ==> order.contains(#[trigger] g[i].deps[j])
}

/// `order` is the order in which Kahn's algorithm with a first-in, first-out
/// queue lets the tasks of `g` out: a task comes out when as many of its
/// dependencies have come out as its list is long, after them, and in the
/// order in which the tasks became ready; tasks that became ready together
/// come in the order in which they were added to the graph.
pub open spec fn is_fifo_order(g: Seq<Node>, order: Seq<Seq<char>>) -> bool {
    &&& order.no_duplicates()
    &&& forall|p: int| 0 <= p < order.len() ==> has_task(g, #[trigger] order[p])
    &&& forall|i: int|
        0 <= i < g.len() ==> (order.contains((#[trigger] g[i]).name) <==> g[i].deps.no_duplicates() && deps_in(
            g,
            order,
            i,
        ))
    &&& forall|p: int| 0 <= p < order.len() ==> #[trigger] deps_before(g, order, p)
    &&& forall|p: int, q: int| 0 <= p < q < order.len() ==> #[trigger] fifo_at(g, order, p, q)
}

/// `order` holds every task of `g` once.
pub open spec fn is_permutation(g: Seq<Node>, order: Seq<Seq<char>>) -> bool {
    &&& order.len() == g.len()
    &&& order.no_duplicates()
    &&& forall|i: int| 0 <= i < g.len() ==> order.contains((#[trigger] g[i]).name)
}

/// No task lists a dependency twice.
pub open spec fn no_repeated_deps(g: Seq<Node>) -> bool {
    forall|i: int| 0 <= i < g.len() ==> (#[trigger] g[i]).deps.no_duplicates()
}

/// In a queue order of a valid graph, a task whose dependencies are all
/// listed once is present.
proof fn lemma_present(g: Seq<Node>, order: Seq<Seq<char>>, rank: Seq<nat>, i: int)
    requires
        distinct_names(g),
        ranked(g, rank),
        forall|i2: int, j2: int| !#[trigger] dangling(g, i2, j2),
        no_repeated_deps(g),
        is_fifo_order(g, order),
        0 <= i < g.len(),
    ensures
        order.contains(g[i].name),
    decreases rank[i],
{
    assert forall|j: int| 0 <= j < g[i].deps.len() implies order.contains(#[trigger] g[i].deps[j]) by {
        assert(!dangling(g, i, j));
        let d = choose|d: int| 0 <= d < g.len() && #[trigger] g[d].name == g[i].deps[j];
        lemma_present(g, order, rank, d);
    }
}

/// In a graph without cycles, without dangling names and without repeated
/// entries in a dependency list, the queue order holds every task once, each
/// after all its dependencies.
pub proof fn lemma_fifo_order_is_permutation(g: Seq<Node>, order: Seq<Seq<char>>)
    requires
        distinct_names(g),
        acyclic(g),
        forall|i: int, j: int| !#[trigger] dangling(g, i, j),
        no_repeated_deps(g),
        is_fifo_order(g, order),
    ensures
        is_permutation(g, order),
        forall|p: int| 0 <= p < order.len() ==> #[trigger] deps_before(g, order, p),
{
    let rank = choose|rank: Seq<nat>| ranked(g, rank);
    assert forall|i: int| 0 <= i < g.len() implies order.contains((#[trigger] g[i]).name) by {
        lemma_present(g, order, rank, i);
    }
    let all = names(g);
    assert forall|p: int| 0 <= p < order.len() implies all.contains(#[trigger] order[p]) by {
        let i = choose|i: int| 0 <= i < g.len() && #[trigger] g[i].name == order[p];
        assert(all[i] == order[p]);
    }
    lemma_distinct_within(order, all);
    lemma_distinct_within(all, order);
}

/// Two queue orders of a graph hold the same tasks.
proof fn lemma_same_members(g: Seq<Node>, rank: Seq<nat>, o: Seq<Seq<char>>, u: Seq<Seq<char>>, i: int)
    requires
        distinct_names(g),
        ranked(g, rank),
        forall|i2: int, j2: int| !#[trigger] dangling(g, i2, j2),
        is_fifo_order(g, o),
        is_fifo_order(g, u),
        0 <= i < g.len(),
    ensures
        o.contains(g[i].name) <==> u.contains(g[i].name),
    decreases rank[i],
{
    assert forall|j: int| 0 <= j < g[i].deps.len() implies (o.contains(#[trigger] g[i].deps[j]) <==> u.contains(
        g[i].deps[j],
    )) by {
        assert(!dangling(g, i, j));
        let d = choose|d: int| 0 <= d < g.len() && #[trigger] g[d].name == g[i].deps[j];
        lemma_same_members(g, rank, o, u, d);
    }
}

/// Names that stand before place `p` in one of two sequences that agree
/// before `p` come out last at the same place in both.
proof fn lemma_last_pos_same(deps: Seq<Seq<char>>, o: Seq<Seq<char>>, u: Seq<Seq<char>>, p: int)
    requires
        o.no_duplicates(),
        u.no_duplicates(),
        0 <= p <= o.len(),
        p <= u.len(),
        forall|q: int| 0 <= q < p ==> o[q] == u[q],
        forall|j: int| 0 <= j < deps.len() ==> appears_before(o, #[trigger] deps[j], p),
    ensures
        last_pos(deps, o) == last_pos(deps, u),
    decreases deps.len(),
{
    if deps.len() > 0 {
        let rest = deps.drop_last();
        lemma_last_pos_same(rest, o, u, p);
    }
}

/// Two queue orders of a graph agree at every place.
proof fn lemma_same_at(g: Seq<Node>, o: Seq<Seq<char>>, u: Seq<Seq<char>>, p: int)
    requires
        distinct_names(g),
        is_fifo_order(g, o),
        is_fifo_order(g, u),
        o.len() == u.len(),
        forall|x: Seq<char>| o.contains(x) <==> u.contains(x),
        0 <= p < o.len(),
    ensures
        o[p] == u[p],
    decreases p,
{
    assert forall|q: int| 0 <= q < p implies o[q] == u[q] by {
        lemma_same_at(g, o, u, q);
    }
    let x = o[p];
    let y = u[p];
    if x != y {
        let qx = choose|q: int| 0 <= q < u.len() && u[q] == x;
        let qy = choose|q: int| 0 <= q < o.len() && o[q] == y;
        let ix = node_index(g, x);
        let iy = node_index(g, y);
        assert(deps_before(g, o, p));
        assert(deps_before(g, u, p));
        lemma_last_pos_same(g[ix].deps, o, u, p);
        lemma_last_pos_same(g[iy].deps, u, o, p);
        assert(fifo_at(g, o, p, qy));
        assert(fifo_at(g, u, p, qx));
    }
}

/// A graph without cycles and without dangling names has at most one queue
/// order: the order that `topological_order` returns is determined by the
/// graph.
pub proof fn lemma_fifo_order_is_unique(g: Seq<Node>, o: Seq<Seq<char>>, u: Seq<Seq<char>>)
    requires
        distinct_names(g),
        acyclic(g),
        forall|i: int, j: int| !#[trigger] dangling(g, i, j),
        is_fifo_order(g, o),
        is_fifo_order(g, u),
    ensures
        o == u,
{
    let rank = choose|rank: Seq<nat>| ranked(g, rank);
    assert forall|x: Seq<char>| o.contains(x) <==> u.contains(x) by {
        if o.contains(x) {
            let i = choose|i: int| 0 <= i < g.len() && #[trigger] g[i].name == x;
            lemma_same_members(g, rank, o, u, i);
        }
        if u.contains(x) {
            let i = choose|i: int| 0 <= i < g.len() && #[trigger] g[i].name == x;
            lemma_same_members(g, rank, o, u, i);
        }
    }
    lemma_distinct_within(o, u);
    lemma_distinct_within(u, o);
    assert forall|p: int| 0 <= p < o.len() implies o[p] == u[p] by {
        lemma_same_at(g, o, u, p);
    }
}

} // verus!
