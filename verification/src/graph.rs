//! The mathematical model of a task graph: named nodes, the dependency
//! relation between names, cycles, and rankings that witness acyclicity.

use vstd::prelude::*;

verus! {

/// A task as the scheduling rules see it: its name and the names of the tasks
/// it depends on, in the order they were declared.
pub struct Node {
    pub name: Seq<char>,
    pub deps: Seq<Seq<char>>,
}

/// No two nodes share a name.
pub open spec fn distinct_names(g: Seq<Node>) -> bool {
    forall|a: int, b: int| 0 <= a < g.len() && 0 <= b < g.len() && #[trigger] g[a].name == #[trigger] g[b].name ==> a == b
}

/// Some node of `g` is called `name`.
pub open spec fn has_task(g: Seq<Node>, name: Seq<char>) -> bool {
    exists|i: int| 0 <= i < g.len() && #[trigger] g[i].name == name
}

/// The `j`-th dependency of node `i` names no node of `g`.
pub open spec fn dangling(g: Seq<Node>, i: int, j: int) -> bool {
    &&& 0 <= i < g.len()
    &&& 0 <= j < g[i].deps.len()
    &&& !has_task(g, g[i].deps[j])
}

/// The node called `a` lists `b` among its dependencies.
pub open spec fn depends(g: Seq<Node>, a: Seq<char>, b: Seq<char>) -> bool {
    exists|i: int, j: int|
        0 <= i < g.len() && 0 <= j < g[i].deps.len() && g[i].name == a && #[trigger] g[i].deps[j] == b
}

/// `c` walks along dependency edges from a node back to itself and visits no
/// other node twice.
pub open spec fn is_cycle(g: Seq<Node>, c: Seq<Seq<char>>) -> bool {
    &&& c.len() >= 2
    &&& c.first() == c.last()
    &&& forall|k: int| 0 <= k < c.len() - 1 ==> depends(g, #[trigger] c[k], c[k + 1])
    &&& c.drop_last().no_duplicates()
}

/// Node `u` lists node `v` among its dependencies.
pub open spec fn lists(g: Seq<Node>, u: int, v: int) -> bool {
    &&& 0 <= u < g.len()
    &&& 0 <= v < g.len()
    &&& exists|j: int| 0 <= j < g[u].deps.len() && #[trigger] g[u].deps[j] == g[v].name
}

/// `p` goes from node to node, each listing the next as a dependency.
pub open spec fn is_path(g: Seq<Node>, p: Seq<int>) -> bool {
    &&& p.len() >= 1
    &&& forall|k: int| 0 <= k < p.len() ==> 0 <= #[trigger] p[k] < g.len()
    &&& forall|k: int| 0 <= k < p.len() - 1 ==> lists(g, #[trigger] p[k], p[k + 1])
}

/// Node `x` depends on itself through a chain of dependencies.
pub open spec fn on_cycle(g: Seq<Node>, x: int) -> bool {
    exists|p: Seq<int>| #[trigger] is_path(g, p) && p.len() >= 2 && p.first() == x && p.last() == x
}

/// Node `x` is on a cycle or depends, through a chain of dependencies, on a
/// node that is.
pub open spec fn reaches_cycle(g: Seq<Node>, x: int) -> bool {
    exists|p: Seq<int>| #[trigger] is_path(g, p) && p.first() == x && on_cycle(g, p.last())
}

/// The `j`-th dependency of node `u` names a node that reaches a cycle.
pub open spec fn dep_reaches_cycle(g: Seq<Node>, u: int, j: int) -> bool {
    exists|x: int| 0 <= x < g.len() && #[trigger] g[x].name == g[u].deps[j] && reaches_cycle(g, x)
}

/// Node `v` is what the first dependency of node `u` that reaches a cycle
/// names.
pub open spec fn first_reaching(g: Seq<Node>, u: int, v: int) -> bool {
    &&& reaches_cycle(g, v)
    &&& exists|j: int|
        0 <= j < g[u].deps.len() && #[trigger] g[u].deps[j] == g[v].name && forall|i: int|
            0 <= i < j ==> !#[trigger] dep_reaches_cycle(g, u, i)
}

/// `w` is the walk on which the search for a cycle finds one: it starts at
/// the first node, in the order of the graph, that reaches a cycle; from
/// each node it goes on to what the node's first dependency that reaches a
/// cycle names; and it ends when it comes to a node for the second time,
/// which it met first at place `pos`.
pub open spec fn is_search_walk(g: Seq<Node>, w: Seq<int>, pos: int) -> bool {
    &&& w.len() >= 2
    &&& 0 <= pos < w.len() - 1
    &&& w.last() == w[pos]
    &&& w.drop_last().no_duplicates()
    &&& forall|k: int| 0 <= k < w.len() ==> 0 <= #[trigger] w[k] < g.len()
    &&& reaches_cycle(g, w[0])
    &&& forall|v: int| 0 <= v < w[0] ==> !#[trigger] reaches_cycle(g, v)
    &&& forall|k: int| 0 <= k < w.len() - 1 ==> first_reaching(g, #[trigger] w[k], w[k + 1])
}

/// The names of the nodes along `w`.
pub open spec fn names_along(g: Seq<Node>, w: Seq<int>) -> Seq<Seq<char>> {
    Seq::new(w.len(), |k: int| g[w[k]].name)
}

/// `rank` gives every node a number strictly above those of the nodes it
/// depends on.
pub open spec fn ranked(g: Seq<Node>, rank: Seq<nat>) -> bool {
    &&& rank.len() == g.len()
    &&& forall|i: int, j: int, d: int|
        0 <= i < g.len() && 0 <= j < g[i].deps.len() && 0 <= d < g.len() && #[trigger] g[d].name
            == #[trigger] g[i].deps[j] ==> rank[d] < rank[i]
}

/// The dependency relation of `g` is well founded.
pub open spec fn acyclic(g: Seq<Node>) -> bool {
    exists|rank: Seq<nat>| ranked(g, rank)
}

/// The names of the nodes, in order.
pub open spec fn names(g: Seq<Node>) -> Seq<Seq<char>> {
    Seq::new(g.len(), |i: int| g[i].name)
}

/// Index of the node called `name`, when names are distinct and it exists.
pub open spec fn node_index(g: Seq<Node>, name: Seq<char>) -> int {
    choose|i: int| 0 <= i < g.len() && #[trigger] g[i].name == name
}

/// Along a walk that follows dependency edges the rank falls with every step.
proof fn lemma_rank_falls(g: Seq<Node>, rank: Seq<nat>, c: Seq<Seq<char>>, k: int)
    requires
        distinct_names(g),
        ranked(g, rank),
        c.len() >= 2,
        has_task(g, c.last()),
        forall|m: int| 0 <= m < c.len() - 1 ==> depends(g, #[trigger] c[m], c[m + 1]),
        0 < k < c.len(),
    ensures
        has_task(g, c[k]),
        has_task(g, c[0]),
        rank[node_index(g, c[k])] < rank[node_index(g, c[0])],
    decreases k,
{
    if k > 1 {
        lemma_rank_falls(g, rank, c, k - 1);
    }
}

/// A graph that has a ranking has no cycle.
pub proof fn lemma_acyclic_has_no_cycle(g: Seq<Node>, c: Seq<Seq<char>>)
    requires
        distinct_names(g),
        acyclic(g),
    ensures
        !is_cycle(g, c),
{
    if is_cycle(g, c) {
        let rank = choose|rank: Seq<nat>| ranked(g, rank);
        lemma_rank_falls(g, rank, c, c.len() - 1);
    }
}

/// What the first dependency of a node that reaches a cycle names is one
/// node.
proof fn lemma_first_reaching_unique(g: Seq<Node>, u: int, v: int, x: int)
    requires
        distinct_names(g),
        0 <= u < g.len(),
        0 <= v < g.len(),
        0 <= x < g.len(),
        first_reaching(g, u, v),
        first_reaching(g, u, x),
    ensures
        v == x,
{
    let j = choose|j: int|
        0 <= j < g[u].deps.len() && #[trigger] g[u].deps[j] == g[v].name && forall|i: int|
            0 <= i < j ==> !#[trigger] dep_reaches_cycle(g, u, i);
    let m = choose|m: int|
        0 <= m < g[u].deps.len() && #[trigger] g[u].deps[m] == g[x].name && forall|i: int|
            0 <= i < m ==> !#[trigger] dep_reaches_cycle(g, u, i);
    assert(dep_reaches_cycle(g, u, j));
    assert(dep_reaches_cycle(g, u, m));
}

/// Two search walks of a graph agree as far as both go.
proof fn lemma_search_walks_agree(g: Seq<Node>, w: Seq<int>, pos: int, v: Seq<int>, at: int, k: int)
    requires
        distinct_names(g),
        is_search_walk(g, w, pos),
        is_search_walk(g, v, at),
        0 <= k < w.len(),
        k < v.len(),
    ensures
        w[k] == v[k],
    decreases k,
{
    if k == 0 {
    } else {
        lemma_search_walks_agree(g, w, pos, v, at, k - 1);
        lemma_first_reaching_unique(g, w[k - 1], w[k], v[k]);
    }
}

/// A graph has at most one search walk: which cycle validation reports is
/// determined by the graph.
pub proof fn lemma_search_walk_is_unique(g: Seq<Node>, w: Seq<int>, pos: int, v: Seq<int>, at: int)
    requires
        distinct_names(g),
        is_search_walk(g, w, pos),
        is_search_walk(g, v, at),
    ensures
        w == v,
        pos == at,
{
    if w.len() < v.len() {
        let n = w.len() - 1;
        lemma_search_walks_agree(g, w, pos, v, at, n);
        lemma_search_walks_agree(g, w, pos, v, at, pos);
        assert(v.drop_last()[n] == v.drop_last()[pos]);
    }
    if v.len() < w.len() {
        let n = v.len() - 1;
        lemma_search_walks_agree(g, w, pos, v, at, n);
        lemma_search_walks_agree(g, w, pos, v, at, at);
        assert(w.drop_last()[n] == w.drop_last()[at]);
    }
    assert forall|k: int| 0 <= k < w.len() implies w[k] == v[k] by {
        lemma_search_walks_agree(g, w, pos, v, at, k);
    }
    if pos != at {
        assert(w.drop_last()[pos] == w.drop_last()[at]);
    }
}

} // verus!
