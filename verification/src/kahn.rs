//! Kahn's algorithm with a first-in, first-out queue over a graph whose
//! dependency lists hold node indices.

use vstd::prelude::*;

verus! {

/// The dependency lists of a resolved graph.
pub open spec fn dep_lists(adj: &Vec<Vec<usize>>) -> Seq<Seq<usize>> {
    Seq::new(adj@.len(), |i: int| adj@[i]@)
}

/// Every dependency is a node of the graph.
pub open spec fn closed_graph(a: Seq<Seq<usize>>) -> bool {
    &&& a.len() <= usize::MAX
    &&& forall|i: int| 0 <= i < a.len() ==> (#[trigger] a[i]).len() <= usize::MAX
    &&& forall|i: int, j: int| 0 <= i < a.len() && 0 <= j < a[i].len() ==> #[trigger] a[i][j] < a.len()
}

/// `rank` falls strictly along every dependency.
pub open spec fn dep_ranked(a: Seq<Seq<usize>>, rank: Seq<nat>) -> bool {
    &&& rank.len() == a.len()
    &&& forall|i: int, j: int|
        0 <= i < a.len() && 0 <= j < a[i].len() ==> rank[#[trigger] a[i][j] as int] < rank[i]
}

/// How many entries of `s` the list `deps` mentions.
pub open spec fn hits(deps: Seq<usize>, s: Seq<usize>) -> nat
    decreases s.len(),
{
    if s.len() == 0 {
        0
    } else {
        hits(deps, s.drop_last()) + if deps.contains(s.last()) {
            1nat
        } else {
            0nat
        }
    }
}

/// Every entry of `deps` occurs in `s`.
pub open spec fn all_in(deps: Seq<usize>, s: Seq<usize>) -> bool {
    forall|j: int| 0 <= j < deps.len() ==> s.contains(#[trigger] deps[j])
}

/// Adding one entry to the list raises the count by one exactly when the
/// entry is new to the list and occurs in `s`.
proof fn lemma_hits_extend(deps: Seq<usize>, s: Seq<usize>)
    requires
        deps.len() > 0,
        s.no_duplicates(),
    ensures
        hits(deps, s) == hits(deps.drop_last(), s) + if !deps.drop_last().contains(deps.last()) && s.contains(
            deps.last(),
        ) {
            1nat
        } else {
            0nat
        },
    decreases s.len(),
{
    let d = deps.last();
    let rest = deps.drop_last();
    if s.len() > 0 {
        let x = s.last();
        let s1 = s.drop_last();
        lemma_hits_extend(deps, s1);
        assert(deps.contains(x) <==> rest.contains(x) || x == d) by {
            if deps.contains(x) {
                let k = choose|k: int| 0 <= k < deps.len() && deps[k] == x;
                if k < deps.len() - 1 {
                    assert(rest[k] == x);
                }
            }
        }
        if x == d {
        } else {
            assert(s.contains(d) <==> s1.contains(d)) by {
                if s.contains(d) {
                    let k = choose|k: int| 0 <= k < s.len() && s[k] == d;
                    assert(s1[k] == d);
                }
            }
        }
    }
}

/// Among distinct entries a list cannot mention more than it is long, and it
/// mentions that many exactly when it repeats nothing and all it names occur.
pub proof fn lemma_hits_full(deps: Seq<usize>, s: Seq<usize>)
    requires
        s.no_duplicates(),
    ensures
        hits(deps, s) <= deps.len(),
        hits(deps, s) == deps.len() <==> deps.no_duplicates() && all_in(deps, s),
    decreases deps.len(),
{
    if deps.len() == 0 {
        lemma_hits_none(deps, s);
    } else {
        let d = deps.last();
        let rest = deps.drop_last();
        lemma_hits_full(rest, s);
        lemma_hits_extend(deps, s);
        assert(deps.no_duplicates() <==> rest.no_duplicates() && !rest.contains(d)) by {
            if rest.no_duplicates() && !rest.contains(d) {
                assert forall|x: int, y: int| 0 <= x < deps.len() && 0 <= y < deps.len() && x != y implies deps[x]
                    != deps[y] by {
                    if x < rest.len() && y < rest.len() {
                        assert(rest[x] != rest[y]);
                    } else if x < rest.len() {
                        assert(rest[x] == deps[x]);
                    } else {
                        assert(rest[y] == deps[y]);
                    }
                }
            }
        }
        assert(all_in(deps, s) <==> all_in(rest, s) && s.contains(d)) by {
            if all_in(rest, s) && s.contains(d) {
                assert forall|j: int| 0 <= j < deps.len() implies s.contains(#[trigger] deps[j]) by {
                    if j < rest.len() {
                        assert(rest[j] == deps[j]);
                    }
                }
            }
        }
    }
}

/// An empty list mentions nothing.
proof fn lemma_hits_none(deps: Seq<usize>, s: Seq<usize>)
    requires
        deps.len() == 0,
    ensures
        hits(deps, s) == 0,
    decreases s.len(),
{
    if s.len() > 0 {
        lemma_hits_none(deps, s.drop_last());
    }
}

/// Distinct entries drawn from `t` are at most as many as `t` is long.
pub proof fn lemma_distinct_within<A>(s: Seq<A>, t: Seq<A>)
    requires
        s.no_duplicates(),
        forall|p: int| 0 <= p < s.len() ==> t.contains(#[trigger] s[p]),
    ensures
        s.len() <= t.len(),
{
    s.unique_seq_to_set();
    t.lemma_cardinality_of_set();
    vstd::set_lib::lemma_len_subset(s.to_set(), t.to_set());
}

/// The indices `0, 1, .., n - 1`.
pub open spec fn iota(n: nat) -> Seq<usize> {
    Seq::new(n, |i: int| i as usize)
}

/// Distinct indices below `n` are at most `n`.
pub proof fn lemma_distinct_below(s: Seq<usize>, n: nat)
    requires
        n <= usize::MAX,
        s.no_duplicates(),
        forall|p: int| 0 <= p < s.len() ==> #[trigger] s[p] < n,
    ensures
        s.len() <= n,
{
    let t = iota(n);
    assert forall|p: int| 0 <= p < s.len() implies t.contains(#[trigger] s[p]) by {
        assert(t[s[p] as int] == s[p]);
    }
    lemma_distinct_within(s, t);
}

/// Whether `u` occurs in `list`.
pub fn mentions(list: &Vec<usize>, u: usize) -> (r: bool)
    ensures
        r == list@.contains(u),
{
    let mut j: usize = 0;
    while j < list.len()
        invariant
            j <= list.len(),
            forall|k: int| 0 <= k < j ==> list@[k] != u,
        decreases list.len() - j,
    {
        if list[j] == u {
            return true;
        }
        j = j + 1;
    }
    false
}

/// Every entry of `deps` occurs in `order` at position `h` or before.
pub open spec fn reached(deps: Seq<usize>, order: Seq<usize>, h: int) -> bool {
    forall|j: int|
        0 <= j < deps.len() ==> exists|q: int| 0 <= q <= h && q < order.len() && order[q] == #[trigger] deps[j]
}

/// Position in `order` of the entry of `deps` that comes out last, or -1 for
/// an empty list.
pub open spec fn last_dep_pos(deps: Seq<usize>, order: Seq<usize>) -> int
    decreases deps.len(),
{
    if deps.len() == 0 {
        -1
    } else {
        let r = last_dep_pos(deps.drop_last(), order);
        let p = order.index_of(deps.last());
        if p > r {
            p
        } else {
            r
        }
    }
}

/// The queue discipline: the entry at `p` comes before the entry at `q`
/// because its last dependency came out earlier, or at the same position and
/// it has the smaller index.
pub open spec fn fifo_before(a: Seq<Seq<usize>>, order: Seq<usize>, p: int, q: int) -> bool {
    let tp = last_dep_pos(a[order[p] as int], order);
    let tq = last_dep_pos(a[order[q] as int], order);
    tp < tq || (tp == tq && order[p] < order[q])
}

/// What `kahn_order` returns for the graph `a`.
pub open spec fn is_kahn_order(a: Seq<Seq<usize>>, order: Seq<usize>) -> bool {
    &&& order.no_duplicates()
    &&& forall|p: int| 0 <= p < order.len() ==> #[trigger] order[p] < a.len()
    &&& forall|v: int|
        0 <= v < a.len() ==> (order.contains(v as usize) <==> (#[trigger] a[v]).no_duplicates() && all_in(a[v], order))
    &&& forall|p: int| 0 <= p < order.len() ==> reached(a[#[trigger] order[p] as int], order, p - 1)
    &&& forall|p: int, q: int| 0 <= p < q < order.len() ==> #[trigger] fifo_before(a, order, p, q)
}

/// The queue with, for each entry, the position whose processing released it.
pub open spec fn queue_ok(a: Seq<Seq<usize>>, order: Seq<usize>, tag: Seq<int>) -> bool {
    &&& tag.len() == order.len()
    &&& order.no_duplicates()
    &&& forall|p: int| 0 <= p < order.len() ==> #[trigger] order[p] < a.len()
    &&& forall|p: int| 0 <= p < order.len() ==> -1 <= #[trigger] tag[p] < p
    &&& forall|p: int, q: int|
        0 <= p < q < order.len() ==> (#[trigger] tag[p] < #[trigger] tag[q] || (tag[p] == tag[q] && order[p]
            < order[q]))
    &&& forall|p: int| 0 <= p < order.len() && #[trigger] tag[p] == -1 ==> a[order[p] as int].len() == 0
    &&& forall|p: int|
        0 <= p < order.len() && #[trigger] tag[p] >= 0 ==> a[order[p] as int].contains(order[tag[p]]) && reached(
            a[order[p] as int],
            order,
            tag[p],
        )
}

/// Appending a released entry keeps the queue well formed.
proof fn lemma_queue_push(a: Seq<Seq<usize>>, order: Seq<usize>, tag: Seq<int>, v: usize, h: int)
    requires
        queue_ok(a, order, tag),
        v < a.len(),
        !order.contains(v),
        -1 <= h < order.len(),
        forall|p: int| 0 <= p < order.len() ==> #[trigger] tag[p] <= h && (tag[p] == h ==> order[p] < v),
        h == -1 ==> a[v as int].len() == 0,
        h >= 0 ==> a[v as int].contains(order[h]) && reached(a[v as int], order, h),
    ensures
        queue_ok(a, order.push(v), tag.push(h)),
{
    let order2 = order.push(v);
    let tag2 = tag.push(h);
    assert forall|p: int| 0 <= p < order2.len() && #[trigger] tag2[p] >= 0 implies a[order2[p] as int].contains(
        order2[tag2[p]],
    ) && reached(a[order2[p] as int], order2, tag2[p]) by {
        let deps = a[order2[p] as int];
        if p < order.len() {
            assert forall|j: int| 0 <= j < deps.len() implies exists|q: int|
                0 <= q <= tag2[p] && q < order2.len() && order2[q] == #[trigger] deps[j] by {
                let q = choose|q: int| 0 <= q <= tag[p] && q < order.len() && order[q] == deps[j];
                assert(order2[q] == deps[j]);
            }
        } else {
            assert forall|j: int| 0 <= j < deps.len() implies exists|q: int|
                0 <= q <= tag2[p] && q < order2.len() && order2[q] == #[trigger] deps[j] by {
                let q = choose|q: int| 0 <= q <= h && q < order.len() && order[q] == deps[j];
                assert(order2[q] == deps[j]);
            }
        }
    }
}

/// A list whose entries all came out by position `h`, one of them at `h`,
/// has its last entry come out at `h`.
proof fn lemma_last_dep_pos(deps: Seq<usize>, order: Seq<usize>, h: int)
    requires
        order.no_duplicates(),
        reached(deps, order, h),
        -1 <= h < order.len(),
    ensures
        last_dep_pos(deps, order) <= h,
        deps.len() == 0 ==> last_dep_pos(deps, order) == -1,
        h >= 0 && deps.contains(order[h]) ==> last_dep_pos(deps, order) == h,
        deps.len() > 0 ==> last_dep_pos(deps, order) >= 0,
    decreases deps.len(),
{
    if deps.len() > 0 {
        let rest = deps.drop_last();
        let d = deps.last();
        lemma_last_dep_pos(rest, order, h);
        if h >= 0 && deps.contains(order[h]) {
            let k = choose|k: int| 0 <= k < deps.len() && deps[k] == order[h];
            if k < rest.len() {
                assert(rest[k] == order[h]);
            }
        }
    }
}

/// The state of the algorithm when the entries before `head` are processed.
pub open spec fn kahn_inv(a: Seq<Seq<usize>>, count: Seq<usize>, order: Seq<usize>, tag: Seq<int>, head: int) -> bool {
    &&& closed_graph(a)
    &&& queue_ok(a, order, tag)
    &&& count.len() == a.len()
    &&& 0 <= head <= order.len()
    &&& forall|v: int| 0 <= v < a.len() ==> (order.contains(v as usize) <==> #[trigger] count[v] == 0)
    &&& forall|p: int| 0 <= p < order.len() ==> #[trigger] tag[p] < head
    &&& forall|v: int| 0 <= v < a.len() ==> #[trigger] count[v] + hits(a[v], order.take(head)) == a[v].len()
}

/// The state in the middle of processing the entry at `head`, when the nodes
/// before `v` have been looked at.
pub open spec fn kahn_mid(
    a: Seq<Seq<usize>>,
    count: Seq<usize>,
    order: Seq<usize>,
    tag: Seq<int>,
    head: int,
    v: int,
) -> bool {
    &&& closed_graph(a)
    &&& queue_ok(a, order, tag)
    &&& count.len() == a.len()
    &&& 0 <= head < order.len()
    &&& 0 <= v <= a.len()
    &&& forall|w: int| 0 <= w < a.len() ==> (order.contains(w as usize) <==> #[trigger] count[w] == 0)
    &&& forall|p: int| 0 <= p < order.len() ==> #[trigger] tag[p] <= head && (tag[p] == head ==> order[p] < v)
    &&& forall|w: int| 0 <= w < v ==> #[trigger] count[w] + hits(a[w], order.take(head + 1)) == a[w].len()
    &&& forall|w: int| v <= w < a.len() ==> #[trigger] count[w] + hits(a[w], order.take(head)) == a[w].len()
}

/// Taking one more entry of the queue extends the processed part by it.
proof fn lemma_take_next(order: Seq<usize>, head: int)
    requires
        0 <= head < order.len(),
    ensures
        order.take(head + 1) == order.take(head).push(order[head]),
        order.take(head + 1).drop_last() == order.take(head),
        order.take(head + 1).last() == order[head],
{
}

/// Looking at node `v` while the entry at `head` is processed: what the new
/// count is, and that the node joins the queue exactly when it reaches zero.
proof fn lemma_kahn_look(
    a: Seq<Seq<usize>>,
    count: Seq<usize>,
    order: Seq<usize>,
    tag: Seq<int>,
    head: int,
    v: int,
)
    requires
        kahn_mid(a, count, order, tag, head, v),
        v < a.len(),
    ensures
        a[v].contains(order[head]) ==> count[v] >= 1,
        a[v].contains(order[head]) && count[v] == 1 ==> kahn_mid(
            a,
            count.update(v, 0),
            order.push(v as usize),
            tag.push(head),
            head,
            v + 1,
        ),
        a[v].contains(order[head]) && count[v] > 1 ==> kahn_mid(
            a,
            count.update(v, (count[v] - 1) as usize),
            order,
            tag,
            head,
            v + 1,
        ),
        !a[v].contains(order[head]) ==> kahn_mid(a, count, order, tag, head, v + 1),
{
    let u = order[head];
    let taken = order.take(head);
    let taken1 = order.take(head + 1);
    lemma_take_next(order, head);
    lemma_hits_full(a[v], taken1);
    if a[v].contains(u) {
        if count[v] == 1 {
            let count2 = count.update(v, 0);
            let order2 = order.push(v as usize);
            lemma_queue_push(a, order, tag, v as usize, head);
            assert(order2.take(head + 1) =~= taken1);
            assert(order2.take(head) =~= taken);
            assert forall|w: int| 0 <= w < a.len() implies (order2.contains(w as usize) <==> #[trigger] count2[w]
                == 0) by {
                if w == v {
                    assert(order2[order.len() as int] == v as usize);
                } else {
                    if order.contains(w as usize) {
                        let q = choose|q: int| 0 <= q < order.len() && order[q] == w as usize;
                        assert(order2[q] == w as usize);
                    }
                }
            }
        }
    }
}

/// When the queue is used up, it holds the order that the contract describes.
proof fn lemma_kahn_done(a: Seq<Seq<usize>>, count: Seq<usize>, order: Seq<usize>, tag: Seq<int>)
    requires
        kahn_inv(a, count, order, tag, order.len() as int),
    ensures
        is_kahn_order(a, order),
{
    assert(order.take(order.len() as int) =~= order);
    assert forall|v: int| 0 <= v < a.len() implies (order.contains(v as usize) <==> (#[trigger] a[v]).no_duplicates()
        && all_in(a[v], order)) by {
        lemma_hits_full(a[v], order);
        assert(count[v] + hits(a[v], order) == a[v].len());
    }
    assert forall|p: int| 0 <= p < order.len() implies last_dep_pos(a[#[trigger] order[p] as int], order) == tag[p]
        && reached(a[order[p] as int], order, p - 1) by {
        let deps = a[order[p] as int];
        if tag[p] == -1 {
        } else {
            lemma_last_dep_pos(deps, order, tag[p]);
        }
    }
}

/// Orders the nodes with Kahn's algorithm: a node enters the queue when the
/// number of its dependencies that have left the queue reaches the length of
/// its dependency list; nodes that become ready together enter by index.
pub fn kahn_order(adj: &Vec<Vec<usize>>) -> (order: Vec<usize>)
    requires
        closed_graph(dep_lists(adj)),
    ensures
        is_kahn_order(dep_lists(adj), order@),
{
    let n = adj.len();
    let ghost a = dep_lists(adj);
    let mut count: Vec<usize> = Vec::new();
    let mut order: Vec<usize> = Vec::new();
    let ghost mut tag: Seq<int> = Seq::empty();
    let mut v: usize = 0;
    while v < n
        invariant
            v <= n,
            n == adj.len(),
            a == dep_lists(adj),
            closed_graph(a),
            queue_ok(a, order@, tag),
            count@.len() == v,
            forall|w: int| 0 <= w < v ==> #[trigger] count@[w] == a[w].len(),
            forall|w: int| 0 <= w < v ==> (order@.contains(w as usize) <==> #[trigger] count@[w] == 0),
            forall|p: int| 0 <= p < order@.len() ==> #[trigger] order@[p] < v && tag[p] == -1,
        decreases n - v,
    {
        let c = adj[v].len();
        let ghost order0 = order@;
        count.push(c);
        if c == 0 {
            proof {
                tag = tag.push(-1);
            }
            order.push(v);
        }
        proof {
            assert forall|w: int| 0 <= w < v + 1 implies (order@.contains(w as usize) <==> #[trigger] count@[w] == 0) by {
                if w < v {
                    if order0.contains(w as usize) {
                        let q = choose|q: int| 0 <= q < order0.len() && order0[q] == w as usize;
                        assert(order@[q] == w as usize);
                    }
                } else {
                    if c == 0 {
                        assert(order@[order0.len() as int] == v);
                    }
                }
            }
        }
        v = v + 1;
    }
    let mut head: usize = 0;
    while head < order.len()
        invariant
            n == adj.len(),
            a == dep_lists(adj),
            kahn_inv(a, count@, order@, tag, head as int),
        decreases n - head,
    {
        proof {
            lemma_distinct_below(order@, n as nat);
        }
        let u = order[head];
        let mut v: usize = 0;
        while v < n
            invariant
                n == adj.len(),
                a == dep_lists(adj),
                v <= n,
                u == order@[head as int],
                kahn_mid(a, count@, order@, tag, head as int, v as int),
            decreases n - v,
        {
            proof {
                lemma_kahn_look(a, count@, order@, tag, head as int, v as int);
            }
            if mentions(&adj[v], u) {
                let c = count[v] - 1;
                count.set(v, c);
                if c == 0 {
                    order.push(v);
                    proof {
                        tag = tag.push(head as int);
                    }
                }
            }
            v = v + 1;
        }
        head = head + 1;
    }
    proof {
        lemma_kahn_done(a, count@, order@, tag);
    }
    order
}

} // verus!
