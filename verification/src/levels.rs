//! Partition of an acyclic graph into levels: each level holds the nodes
//! whose dependencies all lie in earlier levels, as early as that allows.

use vstd::prelude::*;
use crate::cycle::filled;
use crate::kahn::{closed_graph, dep_lists, dep_ranked, lemma_distinct_below};

verus! {

/// The levels as sequences of node indices.
pub open spec fn level_seqs(levels: &Vec<Vec<usize>>) -> Seq<Seq<usize>> {
    Seq::new(levels@.len(), |k: int| levels@[k]@)
}

/// What `level_sets` returns for the graph `a`: the levels are not empty,
/// every node is in exactly one, a node's dependencies are in earlier levels
/// and one of them in the level just before, and each level lists its nodes
/// by rising index.
pub open spec fn is_leveling(a: Seq<Seq<usize>>, l: Seq<Seq<usize>>) -> bool {
    &&& forall|k: int| 0 <= k < l.len() ==> (#[trigger] l[k]).len() > 0
    &&& forall|k: int, p: int| 0 <= k < l.len() && 0 <= p < l[k].len() ==> #[trigger] l[k][p] < a.len()
    &&& forall|x: usize| x < a.len() ==> #[trigger] in_level_before(l, l.len() as int, x)
    &&& forall|k1: int, pa: int, k2: int, pb: int|
        0 <= k1 < l.len() && 0 <= pa < l[k1].len() && 0 <= k2 < l.len() && 0 <= pb < l[k2].len() && #[trigger] l[k1][pa]
            == #[trigger] l[k2][pb] ==> k1 == k2 && pa == pb
    &&& forall|k: int, p: int, j: int|
        0 <= k < l.len() && 0 <= p < l[k].len() && 0 <= j < a[l[k][p] as int].len() ==> in_level_before(
            l,
            k,
            #[trigger] a[l[k][p] as int][j],
        )
    &&& forall|k: int, p: int|
        0 < k < l.len() && 0 <= p < l[k].len() ==> has_dep_in(a[#[trigger] l[k][p] as int], l[k - 1])
    &&& forall|k: int, p: int, q: int| 0 <= k < l.len() && 0 <= p < q < l[k].len() ==> #[trigger] l[k][p] < #[trigger] l[k][q]
}

/// Node `x` is in one of the first `k` levels.
pub open spec fn in_level_before(l: Seq<Seq<usize>>, k: int, x: usize) -> bool {
    exists|e: int| 0 <= e < k && e < l.len() && (#[trigger] l[e]).contains(x)
}

/// One of `deps` is in `level`.
pub open spec fn has_dep_in(deps: Seq<usize>, level: Seq<usize>) -> bool {
    exists|j: int| 0 <= j < deps.len() && level.contains(#[trigger] deps[j])
}

/// How many entries of `deps` are completed.
pub open spec fn done_count(deps: Seq<usize>, completed: Seq<bool>) -> nat
    decreases deps.len(),
{
    if deps.len() == 0 {
        0
    } else {
        done_count(deps.drop_last(), completed) + if completed[deps.last() as int] {
            1nat
        } else {
            0nat
        }
    }
}

/// The completed entries are at most all, and all exactly when none is left.
proof fn lemma_done_count(deps: Seq<usize>, completed: Seq<bool>)
    ensures
        done_count(deps, completed) <= deps.len(),
        done_count(deps, completed) == deps.len() <==> forall|j: int|
            0 <= j < deps.len() ==> completed[#[trigger] deps[j] as int],
    decreases deps.len(),
{
    if deps.len() > 0 {
        let rest = deps.drop_last();
        lemma_done_count(rest, completed);
        if done_count(deps, completed) == deps.len() {
            assert forall|j: int| 0 <= j < deps.len() implies completed[#[trigger] deps[j] as int] by {
                if j < rest.len() {
                    assert(rest[j] == deps[j]);
                }
            }
        }
    }
}

/// Counts the entries of `deps` that are completed.
fn count_done(deps: &Vec<usize>, completed: &Vec<bool>) -> (r: usize)
    requires
        forall|j: int| 0 <= j < deps@.len() ==> #[trigger] deps@[j] < completed@.len(),
    ensures
        r == done_count(deps@, completed@),
        r <= deps@.len(),
{
    let mut r: usize = 0;
    let mut j: usize = 0;
    while j < deps.len()
        invariant
            j <= deps.len(),
            r == done_count(deps@.take(j as int), completed@),
            r <= j,
            forall|k: int| 0 <= k < deps@.len() ==> #[trigger] deps@[k] < completed@.len(),
        decreases deps.len() - j,
    {
        proof {
            assert(deps@.take(j + 1).drop_last() =~= deps@.take(j as int));
        }
        if completed[deps[j]] {
            r = r + 1;
        }
        j = j + 1;
    }
    assert(deps@.take(deps.len() as int) =~= deps@);
    r
}

/// The levels built so far, with the level of each node that is in one.
pub open spec fn lev_inv(a: Seq<Seq<usize>>, l: Seq<Seq<usize>>, lvl: Seq<int>) -> bool {
    &&& closed_graph(a)
    &&& lvl.len() == a.len()
    &&& forall|v: int| 0 <= v < a.len() ==> -1 <= #[trigger] lvl[v] < l.len()
    &&& forall|k: int, p: int|
        0 <= k < l.len() && 0 <= p < l[k].len() ==> #[trigger] l[k][p] < a.len() && lvl[l[k][p] as int] == k
    &&& forall|v: int| 0 <= v < a.len() && #[trigger] lvl[v] >= 0 ==> l[lvl[v]].contains(v as usize)
    &&& forall|k: int, p: int, q: int| 0 <= k < l.len() && 0 <= p < q < l[k].len() ==> #[trigger] l[k][p] < #[trigger] l[k][q]
    &&& forall|k: int| 0 <= k < l.len() ==> (#[trigger] l[k]).len() > 0
    &&& forall|v: int, j: int|
        0 <= v < a.len() && lvl[v] >= 0 && 0 <= j < a[v].len() ==> 0 <= lvl[#[trigger] a[v][j] as int] < lvl[v]
    &&& forall|v: int|
        0 <= v < a.len() && #[trigger] lvl[v] > 0 ==> exists|j: int|
            0 <= j < a[v].len() && lvl[#[trigger] a[v][j] as int] == lvl[v] - 1
}

/// The state at the start of a round.
pub open spec fn lev_head(
    a: Seq<Seq<usize>>,
    l: Seq<Seq<usize>>,
    lvl: Seq<int>,
    completed: Seq<bool>,
    dep_count: Seq<usize>,
) -> bool {
    &&& lev_inv(a, l, lvl)
    &&& completed.len() == a.len()
    &&& dep_count.len() == a.len()
    &&& forall|v: int| 0 <= v < a.len() ==> (#[trigger] completed[v] <==> lvl[v] >= 0)
    &&& forall|v: int|
        0 <= v < a.len() && !completed[v] ==> #[trigger] dep_count[v] + done_count(a[v], completed) == a[v].len()
    &&& l.len() > 0 ==> forall|v: int| 0 <= v < a.len() && !#[trigger] completed[v] ==> waited(a, lvl, v, l.len() - 1)
}

/// Node `v` has a dependency that is in no level yet or in level `last`.
pub open spec fn waited(a: Seq<Seq<usize>>, lvl: Seq<int>, v: int, last: int) -> bool {
    exists|j: int| 0 <= j < a[v].len() && (lvl[#[trigger] a[v][j] as int] == -1 || lvl[a[v][j] as int] == last)
}

/// The nodes that are ready in this round, by rising index.
pub open spec fn is_ready_list(completed: Seq<bool>, dep_count: Seq<usize>, ready: Seq<usize>, upto: int) -> bool {
    &&& forall|p: int|
        0 <= p < ready.len() ==> #[trigger] ready[p] < upto && !completed[ready[p] as int] && dep_count[ready[p] as int]
            == 0
    &&& forall|p: int, q: int| 0 <= p < q < ready.len() ==> #[trigger] ready[p] < #[trigger] ready[q]
    &&& forall|v: int| 0 <= v < upto && !completed[v] && #[trigger] dep_count[v] == 0 ==> ready.contains(v as usize)
}

/// The levels of the nodes after the ready ones formed a new level.
pub open spec fn raised(lvl: Seq<int>, ready: Seq<usize>, k: int) -> Seq<int> {
    Seq::new(lvl.len(), |v: int| if ready.contains(v as usize) { k } else { lvl[v] })
}

/// The completion marks after the ready ones were marked.
pub open spec fn marked(completed: Seq<bool>, ready: Seq<usize>) -> Seq<bool> {
    Seq::new(completed.len(), |v: int| completed[v] || ready.contains(v as usize))
}

/// A round that finds ready nodes extends the levels by them.
proof fn lemma_round(
    a: Seq<Seq<usize>>,
    l: Seq<Seq<usize>>,
    lvl: Seq<int>,
    completed: Seq<bool>,
    dep_count: Seq<usize>,
    ready: Seq<usize>,
)
    requires
        lev_head(a, l, lvl, completed, dep_count),
        is_ready_list(completed, dep_count, ready, a.len() as int),
        ready.len() > 0,
    ensures
        lev_inv(a, l.push(ready), raised(lvl, ready, l.len() as int)),
        forall|v: int|
            0 <= v < a.len() ==> (#[trigger] marked(completed, ready)[v] <==> raised(lvl, ready, l.len() as int)[v] >= 0),
        forall|v: int|
            0 <= v < a.len() && !#[trigger] marked(completed, ready)[v] ==> waited(
                a,
                raised(lvl, ready, l.len() as int),
                v,
                l.len() as int,
            ),
{
    let r = l.len() as int;
    let lvl2 = raised(lvl, ready, r);
    let done2 = marked(completed, ready);
    // every dependency of a ready node is in an earlier level
    assert forall|v: int, j: int| 0 <= v < a.len() && ready.contains(v as usize) && 0 <= j < a[v].len() implies 0
        <= lvl[#[trigger] a[v][j] as int] < r by {
        lemma_done_count(a[v], completed);
    }
    assert forall|v: int| 0 <= v < a.len() && !#[trigger] done2[v] implies waited(a, lvl2, v, r) by {
        lemma_done_count(a[v], completed);
        assert(dep_count[v] + done_count(a[v], completed) == a[v].len());
    }
}

/// When no node is ready, every node is in a level.
proof fn lemma_none_left(
    a: Seq<Seq<usize>>,
    l: Seq<Seq<usize>>,
    lvl: Seq<int>,
    completed: Seq<bool>,
    dep_count: Seq<usize>,
    rank: Seq<nat>,
    v: int,
)
    requires
        lev_head(a, l, lvl, completed, dep_count),
        dep_ranked(a, rank),
        forall|w: int| 0 <= w < a.len() && !completed[w] ==> #[trigger] dep_count[w] != 0,
        0 <= v < a.len(),
    ensures
        completed[v],
    decreases rank[v],
{
    if !completed[v] {
        lemma_done_count(a[v], completed);
        assert(dep_count[v] + done_count(a[v], completed) == a[v].len());
        let j = choose|j: int| 0 <= j < a[v].len() && !completed[#[trigger] a[v][j] as int];
        lemma_none_left(a, l, lvl, completed, dep_count, rank, a[v][j] as int);
    }
}

/// Levels that hold every node are the leveling of the graph.
proof fn lemma_leveling(a: Seq<Seq<usize>>, l: Seq<Seq<usize>>, lvl: Seq<int>)
    requires
        lev_inv(a, l, lvl),
        forall|v: int| 0 <= v < a.len() ==> #[trigger] lvl[v] >= 0,
    ensures
        is_leveling(a, l),
{
    assert forall|x: usize| x < a.len() implies #[trigger] in_level_before(l, l.len() as int, x) by {
        assert(l[lvl[x as int]].contains(x));
    }
}

/// There are at most as many levels as nodes.
proof fn lemma_level_count(a: Seq<Seq<usize>>, l: Seq<Seq<usize>>, lvl: Seq<int>)
    requires
        lev_inv(a, l, lvl),
    ensures
        l.len() <= a.len(),
{
    let reps = Seq::new(l.len(), |k: int| l[k][0]);
    lemma_distinct_below(reps, a.len());
}

/// Where nothing is completed, no entry counts.
proof fn lemma_done_zero(deps: Seq<usize>, completed: Seq<bool>)
    requires
        forall|j: int| 0 <= j < deps.len() ==> !completed[#[trigger] deps[j] as int],
    ensures
        done_count(deps, completed) == 0,
    decreases deps.len(),
{
    if deps.len() > 0 {
        let rest = deps.drop_last();
        lemma_done_zero(rest, completed);
    }
}

/// The nodes that are not completed and wait for nothing, by rising index.
fn ready_nodes(completed: &Vec<bool>, dep_count: &Vec<usize>) -> (ready: Vec<usize>)
    requires
        completed@.len() == dep_count@.len(),
    ensures
        is_ready_list(completed@, dep_count@, ready@, completed@.len() as int),
{
    let n = completed.len();
    let mut ready: Vec<usize> = Vec::new();
    let mut v: usize = 0;
    while v < n
        invariant
            v <= n,
            n == completed@.len(),
            n == dep_count@.len(),
            is_ready_list(completed@, dep_count@, ready@, v as int),
        decreases n - v,
    {
        let ghost ready0 = ready@;
        if !completed[v] && dep_count[v] == 0 {
            ready.push(v);
        }
        proof {
            assert forall|x: int| 0 <= x < v + 1 && !completed@[x] && #[trigger] dep_count@[x] == 0 implies ready@.contains(
                x as usize,
            ) by {
                if x < v {
                    let q = choose|q: int| 0 <= q < ready0.len() && ready0[q] == x as usize;
                    assert(ready@[q] == x as usize);
                } else {
                    assert(ready@[ready0.len() as int] == v);
                }
            }
        }
        v = v + 1;
    }
    ready
}

/// Marks the ready nodes as completed.
fn mark_completed(completed: &mut Vec<bool>, ready: &Vec<usize>)
    requires
        forall|p: int| 0 <= p < ready@.len() ==> #[trigger] ready@[p] < old(completed)@.len(),
    ensures
        final(completed)@ == marked(old(completed)@, ready@),
{
    let ghost completed0 = completed@;
    let n = completed.len();
    let mut k: usize = 0;
    while k < ready.len()
        invariant
            k <= ready.len(),
            completed0.len() == n,
            completed@.len() == completed0.len(),
            forall|p: int| 0 <= p < ready@.len() ==> #[trigger] ready@[p] < completed0.len(),
            forall|v: int|
                0 <= v < completed0.len() ==> (#[trigger] completed@[v] <==> completed0[v] || ready@.take(k as int).contains(
                    v as usize,
                )),
        decreases ready.len() - k,
    {
        completed.set(ready[k], true);
        proof {
            assert forall|v: int| 0 <= v < completed0.len() implies (#[trigger] completed@[v] <==> completed0[v]
                || ready@.take(k + 1).contains(v as usize)) by {
                let t1 = ready@.take(k + 1);
                if v == ready@[k as int] {
                    assert(t1[k as int] == v as usize);
                }
            }
        }
        k = k + 1;
    }
    proof {
        assert(ready@.take(ready.len() as int) =~= ready@);
    }
}

/// Recomputes, for every node not completed, how many of its dependencies
/// are still to come.
fn recount(adj: &Vec<Vec<usize>>, completed: &Vec<bool>, dep_count: &mut Vec<usize>)
    requires
        closed_graph(dep_lists(adj)),
        completed@.len() == adj@.len(),
        old(dep_count)@.len() == adj@.len(),
    ensures
        final(dep_count)@.len() == adj@.len(),
        forall|v: int|
            0 <= v < adj@.len() && !completed@[v] ==> #[trigger] final(dep_count)@[v] + done_count(
                dep_lists(adj)[v],
                completed@,
            ) == dep_lists(adj)[v].len(),
{
    let n = adj.len();
    let ghost a = dep_lists(adj);
    let mut w: usize = 0;
    while w < n
        invariant
            w <= n,
            n == adj@.len(),
            a == dep_lists(adj),
            closed_graph(a),
            completed@.len() == n,
            dep_count@.len() == n,
            forall|v: int|
                0 <= v < w && !completed@[v] ==> #[trigger] dep_count@[v] + done_count(a[v], completed@) == a[v].len(),
        decreases n - w,
    {
        if !completed[w] {
            assert forall|j: int| 0 <= j < adj@[w as int]@.len() implies #[trigger] adj@[w as int]@[j] < completed@.len() by {
                assert(a[w as int][j] < a.len());
            }
            let resolved = count_done(&adj[w], completed);
            dep_count.set(w, adj[w].len() - resolved);
        }
        w = w + 1;
    }
}

/// Partitions the nodes into levels. Each round takes every node that is not
/// yet in a level and whose dependencies all are, by rising index.
pub fn level_sets(adj: &Vec<Vec<usize>>, Ghost(rank): Ghost<Seq<nat>>) -> (levels: Vec<Vec<usize>>)
    requires
        closed_graph(dep_lists(adj)),
        dep_ranked(dep_lists(adj), rank),
    ensures
        is_leveling(dep_lists(adj), level_seqs(&levels)),
{
    let n = adj.len();
    let ghost a = dep_lists(adj);
    let mut dep_count: Vec<usize> = Vec::new();
    let mut v: usize = 0;
    while v < n
        invariant
            v <= n,
            n == adj@.len(),
            a == dep_lists(adj),
            dep_count@.len() == v,
            forall|w: int| 0 <= w < v ==> #[trigger] dep_count@[w] == a[w].len(),
        decreases n - v,
    {
        dep_count.push(adj[v].len());
        v = v + 1;
    }
    let mut completed: Vec<bool> = filled(n, false);
    let mut levels: Vec<Vec<usize>> = Vec::new();
    let ghost mut lvl: Seq<int> = Seq::new(n as nat, |v: int| -1int);
    proof {
        assert forall|v: int| 0 <= v < a.len() && !completed@[v] implies #[trigger] dep_count@[v] + done_count(
            a[v],
            completed@,
        ) == a[v].len() by {
            lemma_done_zero(a[v], completed@);
        }
    }
    loop
        invariant
            n == adj@.len(),
            a == dep_lists(adj),
            dep_ranked(a, rank),
            lev_head(a, level_seqs(&levels), lvl, completed@, dep_count@),
        ensures
            is_leveling(a, level_seqs(&levels)),
        decreases n - levels@.len(),
    {
        let ghost l0 = level_seqs(&levels);
        let ghost completed0 = completed@;
        let ready = ready_nodes(&completed, &dep_count);
        if ready.len() == 0 {
            proof {
                assert forall|w: int| 0 <= w < a.len() implies #[trigger] lvl[w] >= 0 by {
                    lemma_none_left(a, l0, lvl, completed@, dep_count@, rank, w);
                }
                lemma_leveling(a, l0, lvl);
            }
            break;
        }
        proof {
            lemma_round(a, l0, lvl, completed0, dep_count@, ready@);
            lvl = raised(lvl, ready@, l0.len() as int);
        }
        mark_completed(&mut completed, &ready);
        recount(adj, &completed, &mut dep_count);
        levels.push(ready);
        proof {
            assert(level_seqs(&levels) =~= l0.push(ready@));
            lemma_level_count(a, level_seqs(&levels), lvl);
        }
    }
    levels
}

} // verus!
