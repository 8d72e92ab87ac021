//! Depth-first search for a dependency cycle over a graph whose edges are
//! given by node indices, with three colours and an explicit path stack.

use vstd::prelude::*;

verus! {

pub const WHITE: u8 = 0;
pub const GRAY: u8 = 1;
pub const BLACK: u8 = 2;

/// The edge lists of an adjacency structure; `None` marks an edge whose
/// target is not in the graph.
pub open spec fn links(adj: &Vec<Vec<Option<usize>>>) -> Seq<Seq<Option<usize>>> {
    Seq::new(adj@.len(), |i: int| adj@[i]@)
}

/// Every edge that has a target points inside the graph.
pub open spec fn in_range(a: Seq<Seq<Option<usize>>>) -> bool {
    &&& a.len() <= usize::MAX
    &&& forall|i: int| 0 <= i < a.len() ==> (#[trigger] a[i]).len() <= usize::MAX
    &&& forall|i: int, j: int|
        0 <= i < a.len() && 0 <= j < a[i].len() ==> (#[trigger] a[i][j] matches Some(d) ==> d < a.len())
}

/// `rank` falls strictly along every edge.
pub open spec fn idx_ranked(a: Seq<Seq<Option<usize>>>, rank: Seq<nat>) -> bool {
    &&& rank.len() == a.len()
    &&& forall|i: int, j: int|
        0 <= i < a.len() && 0 <= j < a[i].len() ==> (#[trigger] a[i][j] matches Some(d) ==> d < a.len()
            && rank[d as int] < rank[i])
}

/// Node `u` has an edge to node `v`.
pub open spec fn edge(a: Seq<Seq<Option<usize>>>, u: usize, v: usize) -> bool {
    u < a.len() && exists|j: int| 0 <= j < a[u as int].len() && #[trigger] a[u as int][j] == Some(v)
}

/// `c` follows edges from a node back to itself, visiting no other node twice.
pub open spec fn idx_cycle(a: Seq<Seq<Option<usize>>>, c: Seq<usize>) -> bool {
    &&& c.len() >= 2
    &&& c.first() == c.last()
    &&& forall|k: int| 0 <= k < c.len() ==> #[trigger] c[k] < a.len()
    &&& forall|k: int| 0 <= k < c.len() - 1 ==> edge(a, #[trigger] c[k], c[k + 1])
    &&& c.drop_last().no_duplicates()
}

/// The indices as integers.
pub open spec fn ints(p: Seq<usize>) -> Seq<int> {
    Seq::new(p.len(), |k: int| p[k] as int)
}

/// Node `u` has an edge to node `v`.
pub open spec fn iedge(a: Seq<Seq<Option<usize>>>, u: int, v: int) -> bool {
    &&& 0 <= u < a.len()
    &&& 0 <= v < a.len()
    &&& exists|j: int| 0 <= j < a[u].len() && #[trigger] a[u][j] == Some(v as usize)
}

/// `p` follows edges from node to node.
pub open spec fn ipath(a: Seq<Seq<Option<usize>>>, p: Seq<int>) -> bool {
    &&& p.len() >= 1
    &&& forall|k: int| 0 <= k < p.len() ==> 0 <= #[trigger] p[k] < a.len()
    &&& forall|k: int| 0 <= k < p.len() - 1 ==> iedge(a, #[trigger] p[k], p[k + 1])
}

/// Node `x` lies on a cycle.
pub open spec fn icycle_at(a: Seq<Seq<Option<usize>>>, x: int) -> bool {
    exists|p: Seq<int>| #[trigger] ipath(a, p) && p.len() >= 2 && p.first() == x && p.last() == x
}

/// From node `x` a cycle can be reached.
pub open spec fn ibad(a: Seq<Seq<Option<usize>>>, x: int) -> bool {
    exists|p: Seq<int>| #[trigger] ipath(a, p) && p.first() == x && icycle_at(a, p.last())
}

/// The edge of `u` at place `j` leads to a node from which a cycle can be
/// reached.
pub open spec fn ibad_edge(a: Seq<Seq<Option<usize>>>, u: int, j: int) -> bool {
    a[u][j] matches Some(x) && ibad(a, x as int)
}

/// `v` is the target of the first edge of `u` that leads to a node from
/// which a cycle can be reached.
pub open spec fn ifirst(a: Seq<Seq<Option<usize>>>, u: int, v: int) -> bool {
    &&& ibad(a, v)
    &&& exists|j: int|
        0 <= j < a[u].len() && #[trigger] a[u][j] == Some(v as usize) && forall|i: int|
            0 <= i < j ==> !#[trigger] ibad_edge(a, u, i)
}

/// `w` is the walk of the search that finds a cycle: it starts at the first
/// node from which a cycle can be reached, goes from each node along the
/// first edge that leads to such a node, and ends when it comes to a node
/// for the second time, which it first met at place `pos`.
pub open spec fn isearch(a: Seq<Seq<Option<usize>>>, w: Seq<int>, pos: int) -> bool {
    &&& w.len() >= 2
    &&& 0 <= pos < w.len() - 1
    &&& w.last() == w[pos]
    &&& w.drop_last().no_duplicates()
    &&& forall|k: int| 0 <= k < w.len() ==> 0 <= #[trigger] w[k] < a.len()
    &&& ibad(a, w[0])
    &&& forall|v: int| 0 <= v < w[0] ==> !#[trigger] ibad(a, v)
    &&& forall|k: int| 0 <= k < w.len() - 1 ==> ifirst(a, #[trigger] w[k], w[k + 1])
}

/// What one node still contributes to the remaining work of the search.
pub open spec fn term(color: u8, cursor: usize, len: nat) -> nat {
    if color == BLACK {
        0
    } else {
        (1 + len - cursor) as nat
    }
}

/// The remaining work of the search over the first `k` nodes.
pub open spec fn work(a: Seq<Seq<Option<usize>>>, color: Seq<u8>, cursor: Seq<usize>, k: int) -> nat
    decreases k,
{
    if k <= 0 {
        0
    } else {
        work(a, color, cursor, k - 1) + term(color[k - 1], cursor[k - 1], a[k - 1].len())
    }
}

/// Lowering the contribution of one node lowers the total by as much.
proof fn lemma_work_delta(
    a: Seq<Seq<Option<usize>>>,
    c1: Seq<u8>,
    u1: Seq<usize>,
    c2: Seq<u8>,
    u2: Seq<usize>,
    v: int,
    k: int,
)
    requires
        0 <= k <= a.len(),
        c1.len() == a.len(),
        c2.len() == a.len(),
        u1.len() == a.len(),
        u2.len() == a.len(),
        0 <= v < a.len(),
        forall|w: int| 0 <= w < a.len() && w != v ==> c1[w] == c2[w] && u1[w] == u2[w],
        term(c2[v], u2[v], a[v].len()) <= term(c1[v], u1[v], a[v].len()),
    ensures
        work(a, c1, u1, k) - work(a, c2, u2, k) == if v < k {
            term(c1[v], u1[v], a[v].len()) - term(c2[v], u2[v], a[v].len())
        } else {
            0
        },
    decreases k,
{
    if k > 0 {
        lemma_work_delta(a, c1, u1, c2, u2, v, k - 1);
    }
}

/// The state of the search between two steps.
pub open spec fn dfs_inv(
    a: Seq<Seq<Option<usize>>>,
    color: Seq<u8>,
    cursor: Seq<usize>,
    path: Seq<usize>,
    rank: Seq<nat>,
    next: nat,
) -> bool {
    &&& in_range(a)
    &&& color.len() == a.len()
    &&& cursor.len() == a.len()
    &&& rank.len() == a.len()
    &&& forall|v: int| 0 <= v < a.len() ==> #[trigger] color[v] <= BLACK
    &&& forall|v: int| 0 <= v < a.len() ==> #[trigger] cursor[v] <= a[v].len()
    &&& forall|v: int| 0 <= v < a.len() && #[trigger] color[v] == WHITE ==> cursor[v] == 0
    &&& path.no_duplicates()
    &&& forall|k: int| 0 <= k < path.len() ==> #[trigger] path[k] < a.len() && color[path[k] as int] == GRAY
    &&& forall|v: int| 0 <= v < a.len() && #[trigger] color[v] == GRAY ==> path.contains(v as usize)
    &&& forall|k: int|
        0 <= k < path.len() - 1 ==> cursor[#[trigger] path[k] as int] >= 1 && a[path[k] as int][cursor[path[k] as int]
            - 1] == Some(path[k + 1])
    &&& forall|k: int, j: int|
        0 <= k < path.len() && 0 <= j < cursor[path[k] as int] && !(k + 1 < path.len() && j == cursor[path[k] as int]
            - 1) ==> (#[trigger] a[path[k] as int][j] matches Some(d) ==> color[d as int] == BLACK)
    &&& forall|v: int, j: int|
        0 <= v < a.len() && color[v] == BLACK && 0 <= j < a[v].len() ==> (#[trigger] a[v][j] matches Some(d)
            ==> color[d as int] == BLACK && rank[d as int] < rank[v])
    &&& forall|v: int| 0 <= v < a.len() && #[trigger] color[v] == BLACK ==> rank[v] < next
}

/// The part of the path from position `pos` on, closed by the node at `pos`.
fn close_cycle(path: &Vec<usize>, pos: usize) -> (c: Vec<usize>)
    requires
        pos < path.len(),
    ensures
        c@ == path@.skip(pos as int).push(path@[pos as int]),
{
    let mut c: Vec<usize> = Vec::new();
    let mut k: usize = pos;
    while k < path.len()
        invariant
            pos <= k <= path.len(),
            c@ == path@.subrange(pos as int, k as int),
        decreases path.len() - k,
    {
        c.push(path[k]);
        k = k + 1;
    }
    c.push(path[pos]);
    c
}

/// Position of `d` on the path.
fn position_on_path(path: &Vec<usize>, d: usize) -> (pos: usize)
    requires
        path@.contains(d),
    ensures
        pos < path.len(),
        path@[pos as int] == d,
{
    let mut k: usize = 0;
    while k < path.len()
        invariant
            k <= path.len(),
            path@.contains(d),
            forall|m: int| 0 <= m < k ==> path@[m] != d,
        decreases path.len() - k,
    {
        if path[k] == d {
            return k;
        }
        k = k + 1;
    }
    0
}

/// A walk that starts at a black node stays among black nodes, and the rank
/// falls with every step.
proof fn lemma_black_walk(
    a: Seq<Seq<Option<usize>>>,
    color: Seq<u8>,
    cursor: Seq<usize>,
    path: Seq<usize>,
    rank: Seq<nat>,
    next: nat,
    p: Seq<int>,
    k: int,
)
    requires
        dfs_inv(a, color, cursor, path, rank, next),
        ipath(a, p),
        color[p[0]] == BLACK,
        0 <= k < p.len(),
    ensures
        color[p[k]] == BLACK,
        rank[p[k]] + k <= rank[p[0]],
    decreases k,
{
    if k > 0 {
        lemma_black_walk(a, color, cursor, path, rank, next, p, k - 1);
    }
}

/// From a black node no cycle can be reached.
proof fn lemma_black_not_bad(
    a: Seq<Seq<Option<usize>>>,
    color: Seq<u8>,
    cursor: Seq<usize>,
    path: Seq<usize>,
    rank: Seq<nat>,
    next: nat,
    v: int,
)
    requires
        dfs_inv(a, color, cursor, path, rank, next),
        0 <= v < a.len(),
        color[v] == BLACK,
    ensures
        !ibad(a, v),
{
    if ibad(a, v) {
        let p = choose|p: Seq<int>| #[trigger] ipath(a, p) && p.first() == v && icycle_at(a, p.last());
        lemma_black_walk(a, color, cursor, path, rank, next, p, p.len() - 1);
        let x = p.last();
        let q = choose|q: Seq<int>| #[trigger] ipath(a, q) && q.len() >= 2 && q.first() == x && q.last() == x;
        lemma_black_walk(a, color, cursor, path, rank, next, q, q.len() - 1);
    }
}

/// Meeting a gray node ends the walk of the search.
proof fn lemma_dfs_found(
    a: Seq<Seq<Option<usize>>>,
    color: Seq<u8>,
    cursor: Seq<usize>,
    path: Seq<usize>,
    rank: Seq<nat>,
    next: nat,
    d: usize,
    pos: int,
    s: usize,
)
    requires
        dfs_inv(a, color, cursor, path, rank, next),
        path.len() > 0,
        path[0] == s,
        forall|v: int| 0 <= v < s ==> color[v] == BLACK,
        cursor[path.last() as int] < a[path.last() as int].len(),
        a[path.last() as int][cursor[path.last() as int] as int] == Some(d),
        0 <= pos < path.len(),
        path[pos] == d,
    ensures
        isearch(a, ints(path.push(d)), pos),
        ints(path.skip(pos).push(d)) == ints(path.push(d)).skip(pos),
{
    let w = ints(path.push(d));
    let top = path.len() - 1;
    let t = path.last();
    // the place of the edge that the walk takes at each node
    let at = |k: int| if k < top { cursor[path[k] as int] - 1 } else { cursor[t as int] as int };
    assert forall|k: int| 0 <= k <= top implies 0 <= at(k) < a[w[k]].len() && #[trigger] a[w[k]][at(k)] == Some(
        w[k + 1] as usize,
    ) by {}
    // the part of the walk from `pos` on is a cycle
    assert forall|k: int| 0 <= k < w.len() implies #[trigger] ipath(a, w.skip(k)) by {
        let q = w.skip(k);
        assert forall|m: int| 0 <= m < q.len() - 1 implies iedge(a, #[trigger] q[m], q[m + 1]) by {}
    }
    assert(icycle_at(a, d as int)) by {
        assert(ipath(a, w.skip(pos)));
    }
    assert forall|k: int| 0 <= k < w.len() implies ibad(a, #[trigger] w[k]) by {
        assert(ipath(a, w.skip(k)));
    }
    assert forall|v: int| 0 <= v < w[0] implies !#[trigger] ibad(a, v) by {
        lemma_black_not_bad(a, color, cursor, path, rank, next, v);
    }
    assert forall|k: int| 0 <= k < w.len() - 1 implies ifirst(a, #[trigger] w[k], w[k + 1]) by {
        let j = at(k);
        assert forall|i: int| 0 <= i < j implies !#[trigger] ibad_edge(a, w[k], i) by {
            match a[path[k] as int][i] {
                Some(x) => {
                    lemma_black_not_bad(a, color, cursor, path, rank, next, x as int);
                },
                None => {},
            }
        }
    }
}

/// A vector of `n` copies of `x`.
pub fn filled<T: Copy>(n: usize, x: T) -> (v: Vec<T>)
    ensures
        v@.len() == n,
        forall|i: int| 0 <= i < n ==> v@[i] == x,
{
    let mut v: Vec<T> = Vec::new();
    let mut i: usize = 0;
    while i < n
        invariant
            i <= n,
            v@.len() == i,
            forall|k: int| 0 <= k < i ==> v@[k] == x,
        decreases n - i,
    {
        v.push(x);
        i = i + 1;
    }
    v
}

/// Starting a search at a white node keeps the search state well formed.
proof fn lemma_dfs_start(
    a: Seq<Seq<Option<usize>>>,
    color: Seq<u8>,
    cursor: Seq<usize>,
    rank: Seq<nat>,
    next: nat,
    s: usize,
)
    requires
        dfs_inv(a, color, cursor, Seq::empty(), rank, next),
        s < a.len(),
        color[s as int] == WHITE,
    ensures
        dfs_inv(a, color.update(s as int, GRAY), cursor, seq![s], rank, next),
{
    let color2 = color.update(s as int, GRAY);
    let path2 = seq![s];
    assert forall|v: int| 0 <= v < a.len() && #[trigger] color2[v] == GRAY implies path2.contains(v as usize) by {
        if v != s {
        } else {
            assert(path2[0] == s);
        }
    }
}

/// Descending into a white node keeps the state well formed.
proof fn lemma_dfs_push(
    a: Seq<Seq<Option<usize>>>,
    color: Seq<u8>,
    cursor: Seq<usize>,
    path: Seq<usize>,
    rank: Seq<nat>,
    next: nat,
    d: usize,
)
    requires
        in_range(a),
        dfs_inv(a, color, cursor, path, rank, next),
        path.len() > 0,
        cursor[path.last() as int] < a[path.last() as int].len(),
        a[path.last() as int][cursor[path.last() as int] as int] == Some(d),
        d < a.len(),
        color[d as int] == WHITE,
    ensures
        dfs_inv(
            a,
            color.update(d as int, GRAY),
            cursor.update(path.last() as int, (cursor[path.last() as int] + 1) as usize),
            path.push(d),
            rank,
            next,
        ),
{
    let t = path.last();
    let cur = cursor[t as int];
    let top = path.len() - 1;
    let cursor2 = cursor.update(t as int, (cur + 1) as usize);
    let color2 = color.update(d as int, GRAY);
    let path2 = path.push(d);
    assert forall|v: int| 0 <= v < a.len() && #[trigger] color2[v] == GRAY implies path2.contains(v as usize) by {
        if v == d {
            assert(path2[top + 1] == d);
        } else {
            let k = choose|k: int| 0 <= k < path.len() && path[k] == v as usize;
            assert(path2[k] == v as usize);
        }
    }
}

/// Leaving a node whose edges are all done keeps the state well formed.
proof fn lemma_dfs_pop(
    a: Seq<Seq<Option<usize>>>,
    color: Seq<u8>,
    cursor: Seq<usize>,
    path: Seq<usize>,
    rank: Seq<nat>,
    next: nat,
)
    requires
        in_range(a),
        dfs_inv(a, color, cursor, path, rank, next),
        path.len() > 0,
        cursor[path.last() as int] == a[path.last() as int].len(),
    ensures
        dfs_inv(
            a,
            color.update(path.last() as int, BLACK),
            cursor,
            path.drop_last(),
            rank.update(path.last() as int, next),
            next + 1,
        ),
{
    let t = path.last();
    let color2 = color.update(t as int, BLACK);
    let path2 = path.drop_last();
    assert forall|v: int| 0 <= v < a.len() && #[trigger] color2[v] == GRAY implies path2.contains(v as usize) by {
        let k = choose|k: int| 0 <= k < path.len() && path[k] == v as usize;
        assert(path2[k] == v as usize);
    }
}

/// Meeting a gray node closes a cycle along the path.
proof fn lemma_dfs_cycle(
    a: Seq<Seq<Option<usize>>>,
    color: Seq<u8>,
    cursor: Seq<usize>,
    path: Seq<usize>,
    rank: Seq<nat>,
    next: nat,
    d: usize,
    pos: int,
)
    requires
        in_range(a),
        dfs_inv(a, color, cursor, path, rank, next),
        path.len() > 0,
        cursor[path.last() as int] < a[path.last() as int].len(),
        a[path.last() as int][cursor[path.last() as int] as int] == Some(d),
        0 <= pos < path.len(),
        path[pos] == d,
    ensures
        idx_cycle(a, path.skip(pos).push(d)),
{
}

/// Searches the graph depth first, starting at each node in index order and
/// following each node's edges in their order. Returns the first cycle met,
/// as the path from the node that was reached again back to itself, or a
/// ranking that shows there is none.
pub fn find_cycle(adj: &Vec<Vec<Option<usize>>>) -> (r: (
    Option<Vec<usize>>,
    Ghost<Seq<nat>>,
    Ghost<Seq<int>>,
    Ghost<int>,
))
    requires
        in_range(links(adj)),
    ensures
        match r.0 {
            Some(c) => idx_cycle(links(adj), c@) && isearch(links(adj), r.2@, r.3@) && ints(c@) == r.2@.skip(r.3@),
            None => idx_ranked(links(adj), r.1@),
        },
{
    let n = adj.len();
    let ghost a = links(adj);
    let mut color: Vec<u8> = filled(n, WHITE);
    let mut cursor: Vec<usize> = filled(n, 0usize);
    let mut path: Vec<usize> = Vec::new();
    let ghost mut rank: Seq<nat> = Seq::new(n as nat, |i: int| 0nat);
    let ghost mut next: nat = 0;
    let mut s: usize = 0;
    while s < n
        invariant
            s <= n,
            n == adj.len(),
            a == links(adj),
            in_range(a),
            dfs_inv(a, color@, cursor@, path@, rank, next),
            path@.len() == 0,
            forall|v: int| 0 <= v < s ==> color@[v] == BLACK,
        decreases n - s,
    {
        if color[s] == WHITE {
            proof {
                lemma_dfs_start(a, color@, cursor@, rank, next, s);
                assert(path@.push(s) =~= seq![s]);
            }
            color.set(s, GRAY);
            path.push(s);
            while path.len() > 0
                invariant
                    n == adj.len(),
                    a == links(adj),
                    in_range(a),
                    s < n,
                    dfs_inv(a, color@, cursor@, path@, rank, next),
                    forall|v: int| 0 <= v < s ==> color@[v] == BLACK,
                    color@[s as int] != WHITE,
                    path@.len() > 0 ==> path@[0] == s,
                decreases work(a, color@, cursor@, n as int),
            {
                let top = path.len() - 1;
                let t = path[top];
                let cur = cursor[t];
                let ghost color0 = color@;
                let ghost cursor0 = cursor@;
                let ghost path0 = path@;
                if cur < adj[t].len() {
                    let e = adj[t][cur];
                    cursor.set(t, cur + 1);
                    proof {
                        lemma_work_delta(a, color0, cursor0, color@, cursor@, t as int, n as int);
                    }
                    match e {
                        None => {},
                        Some(d) => {
                            if color[d] == WHITE {
                                let ghost cursor1 = cursor@;
                                color.set(d, GRAY);
                                path.push(d);
                                proof {
                                    lemma_work_delta(a, color0, cursor1, color@, cursor1, d as int, n as int);
                                    lemma_dfs_push(a, color0, cursor0, path0, rank, next, d);
                                }
                            } else if color[d] == GRAY {
                                let pos = position_on_path(&path, d);
                                let c = close_cycle(&path, pos);
                                proof {
                                    lemma_dfs_cycle(a, color0, cursor0, path0, rank, next, d, pos as int);
                                    lemma_dfs_found(a, color0, cursor0, path0, rank, next, d, pos as int, s);
                                }
                                return (Some(c), Ghost(rank), Ghost(ints(path0.push(d))), Ghost(pos as int));
                            }
                        },
                    }
                } else {
                    path.pop();
                    color.set(t, BLACK);
                    proof {
                        lemma_work_delta(a, color0, cursor0, color@, cursor@, t as int, n as int);
                        lemma_dfs_pop(a, color0, cursor0, path0, rank, next);
                        rank = rank.update(t as int, next);
                        next = next + 1;
                    }
                }
            }
            assert(color@[s as int] == BLACK);
        }
        s = s + 1;
    }
    (None, Ghost(rank), Ghost(Seq::empty()), Ghost(0))
}

} // verus!
