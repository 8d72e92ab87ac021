//! The task graph: named tasks with declared dependencies, validation, a
//! topological order and the partition into levels of independent tasks.

use vstd::prelude::*;
use vstd::string::StringExecFns;
use crate::cycle::{
    edge, find_cycle, ibad, ibad_edge, icycle_at, idx_cycle, idx_ranked, iedge, in_range, ipath,
    isearch, links,
};
use crate::error::{ForgeError, ForgeResult};
use crate::graph::{
    acyclic, dangling, dep_reaches_cycle, depends, distinct_names, first_reaching, has_task, is_cycle, is_path,
    is_search_walk, lists, names_along, on_cycle, ranked, reaches_cycle, Node,
};
use crate::kahn::{
    all_in, closed_graph, dep_lists, dep_ranked, fifo_before, is_kahn_order, kahn_order, last_dep_pos,
};
use crate::level_order::{in_earlier_level, is_level_order, level_rule};
use crate::levels::{in_level_before, is_leveling, level_sets, level_seqs};
use crate::queue_order::{
    appears_before, deps_before, deps_in, fifo_at, is_fifo_order, is_permutation, last_pos,
    lemma_fifo_order_is_permutation, no_repeated_deps,
};
use crate::text::{join, str_eq, texts};

verus! {

/// A built-in operation of the build tool.
#[derive(Debug, Clone, Copy, PartialEq, Eq)]
pub enum InternalTask {
    Compile,
    Run,
    Test,
    Package,
    Clean,
    ResolveDeps,
}

/// What a task does when it runs.
#[derive(Debug, Clone)]
pub enum TaskAction {
    /// A shell command.
    Command(String),
    /// A built-in operation, carried out by the language modules.
    Internal(InternalTask),
    /// Nothing of its own: the task only groups its dependencies.
    Composite,
}

/// A named unit of work.
#[derive(Debug, Clone)]
pub struct Task {
    pub name: String,
    pub description: String,
    pub depends_on: Vec<String>,
    pub action: TaskAction,
}

impl Task {
    /// The task as the scheduling rules see it.
    pub open spec fn node(self) -> Node {
        Node { name: self.name@, deps: texts(self.depends_on@) }
    }
}

/// The nodes of a sequence of tasks.
pub open spec fn nodes_of(tasks: Seq<Task>) -> Seq<Node> {
    Seq::new(tasks.len(), |i: int| tasks[i].node())
}

/// The message that reports the cycle `c`: its names joined by arrows.
pub open spec fn cycle_text(c: Seq<Seq<char>>) -> Seq<char> {
    join(c, " → "@)
}

/// The message that reports that `task` depends on `dep`, which is no task.
pub open spec fn dangling_text(dep: Seq<char>, task: Seq<char>) -> Seq<char> {
    "'"@ + dep + "' (referenciada por '"@ + task + "')"@
}

/// The `j`-th dependency of node `i` is the first one, by node and then by
/// place in the node's list, that names no node.
pub open spec fn first_dangling(g: Seq<Node>, i: int, j: int) -> bool {
    &&& dangling(g, i, j)
    &&& forall|i2: int, j2: int| #[trigger] dangling(g, i2, j2) ==> i < i2 || (i == i2 && j <= j2)
}

/// What validation answers for the graph `g`: where there is a cycle, the
/// one that the search walk ends in, with its names in walking order; else
/// the first dependency that names no task; else success.
pub open spec fn validation(g: Seq<Node>, r: Result<(), ForgeError>) -> bool {
    match r {
        Ok(_) => acyclic(g) && forall|i: int, j: int| !#[trigger] dangling(g, i, j),
        Err(ForgeError::CyclicDependency { cycle }) => exists|w: Seq<int>, pos: int|
            #[trigger] is_search_walk(g, w, pos) && is_cycle(g, names_along(g, w.skip(pos))) && cycle@ == cycle_text(
                names_along(g, w.skip(pos)),
            ),
        Err(ForgeError::TaskNotFound { task_name }) => acyclic(g) && exists|i: int, j: int|
            #[trigger] first_dangling(g, i, j) && task_name@ == dangling_text(g[i].deps[j], g[i].name),
        Err(_) => false,
    }
}

/// The edge lists `a` give, for every dependency name of `g`, the node of
/// that name, or `None` where there is none.
spec fn resolves(g: Seq<Node>, a: Seq<Seq<Option<usize>>>) -> bool {
    &&& a.len() == g.len()
    &&& forall|i: int| 0 <= i < g.len() ==> (#[trigger] a[i]).len() == g[i].deps.len()
    &&& forall|i: int, j: int|
        0 <= i < g.len() && 0 <= j < g[i].deps.len() ==> match #[trigger] a[i][j] {
            Some(d) => d < g.len() && g[d as int].name == g[i].deps[j],
            None => !has_task(g, g[i].deps[j]),
        }
}

/// The dependency lists `a` give, for every dependency name of `g`, the
/// node of that name.
spec fn matches_names(g: Seq<Node>, a: Seq<Seq<usize>>) -> bool {
    &&& a.len() == g.len()
    &&& forall|i: int| 0 <= i < g.len() ==> (#[trigger] a[i]).len() == g[i].deps.len()
    &&& forall|i: int, j: int|
        0 <= i < g.len() && 0 <= j < g[i].deps.len() ==> #[trigger] a[i][j] < g.len() && g[a[i][j] as int].name
            == g[i].deps[j]
}

/// The names of the nodes at the indices `c`.
spec fn names_at(g: Seq<Node>, c: Seq<usize>) -> Seq<Seq<char>> {
    Seq::new(c.len(), |k: int| g[c[k] as int].name)
}

/// A cycle over indices is a cycle over the names.
proof fn lemma_lift_cycle(g: Seq<Node>, a: Seq<Seq<Option<usize>>>, c: Seq<usize>)
    requires
        distinct_names(g),
        resolves(g, a),
        idx_cycle(a, c),
    ensures
        is_cycle(g, names_at(g, c)),
{
    let names = names_at(g, c);
    assert forall|x: int, y: int|
        0 <= x < names.drop_last().len() && 0 <= y < names.drop_last().len() && x != y implies names.drop_last()[x]
        != names.drop_last()[y] by {
        assert(c.drop_last()[x] != c.drop_last()[y]);
    }
}

/// Edges over indices are the listings of the graph.
proof fn lemma_lift_edge(g: Seq<Node>, a: Seq<Seq<Option<usize>>>, u: int, v: int)
    requires
        distinct_names(g),
        resolves(g, a),
        g.len() <= usize::MAX,
    ensures
        iedge(a, u, v) <==> lists(g, u, v),
{
    if lists(g, u, v) {
        let j = choose|j: int| 0 <= j < g[u].deps.len() && #[trigger] g[u].deps[j] == g[v].name;
        match a[u][j] {
            Some(d) => {},
            None => {},
        }
    }
}

/// Walks over indices are the paths of the graph.
proof fn lemma_lift_path(g: Seq<Node>, a: Seq<Seq<Option<usize>>>, p: Seq<int>)
    requires
        distinct_names(g),
        resolves(g, a),
        g.len() <= usize::MAX,
    ensures
        ipath(a, p) <==> is_path(g, p),
{
    if is_path(g, p) {
        assert forall|k: int| 0 <= k < p.len() - 1 implies iedge(a, #[trigger] p[k], p[k + 1]) by {
            lemma_lift_edge(g, a, p[k], p[k + 1]);
        }
    }
}

/// A node lies on a cycle over indices exactly when it does in the graph,
/// and reaches one exactly when it does in the graph.
proof fn lemma_lift_reach(g: Seq<Node>, a: Seq<Seq<Option<usize>>>, x: int)
    requires
        distinct_names(g),
        resolves(g, a),
        g.len() <= usize::MAX,
    ensures
        icycle_at(a, x) <==> on_cycle(g, x),
        ibad(a, x) <==> reaches_cycle(g, x),
{
    if icycle_at(a, x) {
        let p = choose|p: Seq<int>| #[trigger] ipath(a, p) && p.len() >= 2 && p.first() == x && p.last() == x;
        lemma_lift_path(g, a, p);
    }
    if on_cycle(g, x) {
        let p = choose|p: Seq<int>| #[trigger] is_path(g, p) && p.len() >= 2 && p.first() == x && p.last() == x;
        lemma_lift_path(g, a, p);
    }
    if ibad(a, x) {
        let p = choose|p: Seq<int>| #[trigger] ipath(a, p) && p.first() == x && icycle_at(a, p.last());
        lemma_lift_path(g, a, p);
        let y = p.last();
        let q = choose|q: Seq<int>| #[trigger] ipath(a, q) && q.len() >= 2 && q.first() == y && q.last() == y;
        lemma_lift_path(g, a, q);
    }
    if reaches_cycle(g, x) {
        let p = choose|p: Seq<int>| #[trigger] is_path(g, p) && p.first() == x && on_cycle(g, p.last());
        lemma_lift_path(g, a, p);
        let y = p.last();
        let q = choose|q: Seq<int>| #[trigger] is_path(g, q) && q.len() >= 2 && q.first() == y && q.last() == y;
        lemma_lift_path(g, a, q);
    }
}

/// The walk of the search over indices is the search walk of the graph.
proof fn lemma_lift_search(g: Seq<Node>, a: Seq<Seq<Option<usize>>>, w: Seq<int>, pos: int)
    requires
        distinct_names(g),
        resolves(g, a),
        g.len() <= usize::MAX,
        isearch(a, w, pos),
    ensures
        is_search_walk(g, w, pos),
{
    lemma_lift_reach(g, a, w[0]);
    assert forall|v: int| 0 <= v < w[0] implies !#[trigger] reaches_cycle(g, v) by {
        lemma_lift_reach(g, a, v);
    }
    assert forall|k: int| 0 <= k < w.len() - 1 implies first_reaching(g, #[trigger] w[k], w[k + 1]) by {
        let u = w[k];
        let v = w[k + 1];
        lemma_lift_reach(g, a, v);
        let j = choose|j: int|
            0 <= j < a[u].len() && #[trigger] a[u][j] == Some(v as usize) && forall|i: int|
                0 <= i < j ==> !#[trigger] ibad_edge(a, u, i);
        assert forall|i: int| 0 <= i < j implies !#[trigger] dep_reaches_cycle(g, u, i) by {
            if dep_reaches_cycle(g, u, i) {
                let x = choose|x: int| 0 <= x < g.len() && #[trigger] g[x].name == g[u].deps[i] && reaches_cycle(g, x);
                lemma_lift_reach(g, a, x);
                match a[u][i] {
                    Some(d) => {},
                    None => {},
                }
                assert(ibad_edge(a, u, i));
            }
        }
    }
}

/// A ranking over indices is a ranking over the names.
proof fn lemma_lift_rank(g: Seq<Node>, a: Seq<Seq<Option<usize>>>, rank: Seq<nat>)
    requires
        distinct_names(g),
        resolves(g, a),
        idx_ranked(a, rank),
    ensures
        ranked(g, rank),
{
    assert forall|i: int, j: int, d: int|
        0 <= i < g.len() && 0 <= j < g[i].deps.len() && 0 <= d < g.len() && #[trigger] g[d].name
            == #[trigger] g[i].deps[j] implies rank[d] < rank[i] by {
        match a[i][j] {
            Some(e) => {},
            None => {},
        }
    }
}

/// The position, in index terms, of the last of a list to come out is its
/// position in terms of names.
proof fn lemma_lift_last_pos(g: Seq<Node>, list: Seq<usize>, deps: Seq<Seq<char>>, oi: Seq<usize>)
    requires
        distinct_names(g),
        oi.no_duplicates(),
        forall|p: int| 0 <= p < oi.len() ==> #[trigger] oi[p] < g.len(),
        list.len() == deps.len(),
        forall|j: int| 0 <= j < list.len() ==> #[trigger] list[j] < g.len() && g[list[j] as int].name == deps[j],
        all_in(list, oi),
    ensures
        last_pos(deps, names_at(g, oi)) == last_dep_pos(list, oi),
    decreases list.len(),
{
    let on = names_at(g, oi);
    if list.len() > 0 {
        let rest = list.drop_last();
        let rest_names = deps.drop_last();
        lemma_lift_last_pos(g, rest, rest_names, oi);
        let x = list.last();
        let q = choose|q: int| 0 <= q < oi.len() && oi[q] == x;
        assert(on[q] == deps.last());
    }
}

/// The index-level queue order gives the queue order of the names.
proof fn lemma_lift_order(g: Seq<Node>, a: Seq<Seq<usize>>, oi: Seq<usize>)
    requires
        distinct_names(g),
        matches_names(g, a),
        closed_graph(a),
        is_kahn_order(a, oi),
    ensures
        is_fifo_order(g, names_at(g, oi)),
{
    let on = names_at(g, oi);
    assert forall|i: int| 0 <= i < g.len() implies (on.contains(g[i].name) <==> oi.contains(i as usize)) by {
        if oi.contains(i as usize) {
            let p = choose|p: int| 0 <= p < oi.len() && oi[p] == i as usize;
            assert(on[p] == g[i].name);
        }
    }
    assert forall|i: int| 0 <= i < g.len() implies (on.contains((#[trigger] g[i]).name) <==> g[i].deps.no_duplicates()
        && deps_in(g, on, i)) by {
        assert(a[i].no_duplicates() <==> g[i].deps.no_duplicates()) by {
            if a[i].no_duplicates() {
                assert forall|x: int, y: int|
                    0 <= x < g[i].deps.len() && 0 <= y < g[i].deps.len() && x != y implies g[i].deps[x] != g[i].deps[y] by {
                    assert(g[a[i][x] as int].name == g[i].deps[x]);
                    assert(g[a[i][y] as int].name == g[i].deps[y]);
                }
            }
        }
        assert(all_in(a[i], oi) <==> deps_in(g, on, i)) by {
            if all_in(a[i], oi) {
                assert forall|j: int| 0 <= j < g[i].deps.len() implies on.contains(#[trigger] g[i].deps[j]) by {
                    let q = choose|q: int| 0 <= q < oi.len() && oi[q] == a[i][j];
                }
            }
        }
    }
    assert forall|p: int| 0 <= p < on.len() implies #[trigger] deps_before(g, on, p) by {
        let i = oi[p] as int;
        assert forall|j: int| 0 <= j < g[i].deps.len() implies appears_before(on, #[trigger] g[i].deps[j], p) by {
            let q = choose|q: int| 0 <= q <= p - 1 && q < oi.len() && oi[q] == a[i][j];
        }
    }
    assert forall|p: int| 0 <= p < on.len() implies last_pos(g[#[trigger] oi[p] as int].deps, on) == last_dep_pos(
        a[oi[p] as int],
        oi,
    ) by {
        let i = oi[p] as int;
        lemma_lift_last_pos(g, a[i], g[i].deps, oi);
    }
    assert forall|p: int, q: int| 0 <= p < q < on.len() implies #[trigger] fifo_at(g, on, p, q) by {
        assert(fifo_before(a, oi, p, q));
    }
}

/// The text of each string of each level.
pub open spec fn level_texts(v: Seq<Vec<String>>) -> Seq<Seq<Seq<char>>> {
    Seq::new(v.len(), |k: int| texts(v[k]@))
}

/// The names of the nodes in each level of `li`.
spec fn level_names(g: Seq<Node>, li: Seq<Seq<usize>>) -> Seq<Seq<Seq<char>>> {
    Seq::new(li.len(), |k: int| names_at(g, li[k]))
}

/// The index-level leveling gives the level order of the names.
proof fn lemma_lift_levels(g: Seq<Node>, a: Seq<Seq<usize>>, li: Seq<Seq<usize>>)
    requires
        distinct_names(g),
        matches_names(g, a),
        closed_graph(a),
        is_leveling(a, li),
    ensures
        is_level_order(g, level_names(g, li)),
{
    let l = level_names(g, li);
    assert forall|k: int, x: usize| 0 <= k < li.len() && x < g.len() && (#[trigger] li[k]).contains(x) implies l[k].contains(
        #[trigger] g[x as int].name,
    ) by {
        let p = choose|p: int| 0 <= p < li[k].len() && li[k][p] == x;
        assert(l[k][p] == g[x as int].name);
    }
    assert forall|i: int| 0 <= i < g.len() implies in_earlier_level(l, l.len() as int, (#[trigger] g[i]).name) by {
        assert(in_level_before(li, li.len() as int, i as usize));
    }
    assert forall|k: int, p: int| 0 <= k < l.len() && 0 <= p < l[k].len() implies #[trigger] level_rule(g, l, k, p) by {
        let i = li[k][p] as int;
        assert forall|j: int| 0 <= j < g[i].deps.len() implies in_earlier_level(l, k, #[trigger] g[i].deps[j]) by {
            let d = a[li[k][p] as int][j];
        }
    }
}

/// A graph with a cycle fails validation, and the error names a cycle of the
/// graph: its nodes in walking order, the first one again at the end, and no
/// other node.
pub proof fn lemma_cycle_is_reported(g: Seq<Node>, r: Result<(), ForgeError>, c: Seq<Seq<char>>)
    requires
        distinct_names(g),
        validation(g, r),
        is_cycle(g, c),
    ensures
        r matches Err(ForgeError::CyclicDependency { cycle }) && exists|found: Seq<Seq<char>>|
            #[trigger] is_cycle(g, found) && cycle@ == cycle_text(found),
{
    if acyclic(g) {
        crate::graph::lemma_acyclic_has_no_cycle(g, c);
    }
}

/// A graph without a cycle is never reported to have one.
pub proof fn lemma_no_cycle_is_not_reported(g: Seq<Node>, r: Result<(), ForgeError>)
    requires
        distinct_names(g),
        validation(g, r),
        forall|c: Seq<Seq<char>>| !is_cycle(g, c),
    ensures
        !(r matches Err(ForgeError::CyclicDependency { .. })),
{
}

/// The first edge, by node and then by place, that has no target.
fn first_missing(adj: &Vec<Vec<Option<usize>>>) -> (r: Option<(usize, usize)>)
    ensures
        match r {
            Some((i, j)) => i < adj@.len() && j < adj@[i as int]@.len() && adj@[i as int]@[j as int] is None && forall|
                i2: int,
                j2: int,
            |
                0 <= i2 < adj@.len() && 0 <= j2 < adj@[i2]@.len() && (#[trigger] adj@[i2]@[j2]) is None ==> i < i2 || (i
                    == i2 && j <= j2),
            None => forall|i2: int, j2: int|
                0 <= i2 < adj@.len() && 0 <= j2 < adj@[i2]@.len() ==> (#[trigger] adj@[i2]@[j2]) is Some,
        },
{
    let mut i: usize = 0;
    while i < adj.len()
        invariant
            i <= adj@.len(),
            forall|i2: int, j2: int| 0 <= i2 < i && 0 <= j2 < adj@[i2]@.len() ==> (#[trigger] adj@[i2]@[j2]) is Some,
        decreases adj.len() - i,
    {
        let mut j: usize = 0;
        while j < adj[i].len()
            invariant
                i < adj@.len(),
                j <= adj@[i as int]@.len(),
                forall|i2: int, j2: int| 0 <= i2 < i && 0 <= j2 < adj@[i2]@.len() ==> (#[trigger] adj@[i2]@[j2]) is Some,
                forall|j2: int| 0 <= j2 < j ==> (#[trigger] adj@[i as int]@[j2]) is Some,
            decreases adj[i as int].len() - j,
        {
            if adj[i][j].is_none() {
                return Some((i, j));
            }
            j = j + 1;
        }
        i = i + 1;
    }
    None
}

/// The targets of edge lists that have no edge without a target.
fn unwrap_links(adj: &Vec<Vec<Option<usize>>>) -> (deps: Vec<Vec<usize>>)
    requires
        forall|i: int, j: int| 0 <= i < adj@.len() && 0 <= j < adj@[i]@.len() ==> (#[trigger] adj@[i]@[j]) is Some,
    ensures
        deps@.len() == adj@.len(),
        forall|i: int| 0 <= i < adj@.len() ==> (#[trigger] deps@[i])@.len() == adj@[i]@.len(),
        forall|i: int, j: int|
            0 <= i < adj@.len() && 0 <= j < adj@[i]@.len() ==> adj@[i]@[j] == Some(#[trigger] deps@[i]@[j]),
{
    let mut deps: Vec<Vec<usize>> = Vec::new();
    let mut i: usize = 0;
    while i < adj.len()
        invariant
            i <= adj@.len(),
            deps@.len() == i,
            forall|i2: int, j2: int| 0 <= i2 < adj@.len() && 0 <= j2 < adj@[i2]@.len() ==> (#[trigger] adj@[i2]@[j2]) is Some,
            forall|i2: int| 0 <= i2 < i ==> (#[trigger] deps@[i2])@.len() == adj@[i2]@.len(),
            forall|i2: int, j2: int|
                0 <= i2 < i && 0 <= j2 < adj@[i2]@.len() ==> adj@[i2]@[j2] == Some(#[trigger] deps@[i2]@[j2]),
        decreases adj.len() - i,
    {
        let mut row: Vec<usize> = Vec::new();
        let mut j: usize = 0;
        while j < adj[i].len()
            invariant
                i < adj@.len(),
                j <= adj@[i as int]@.len(),
                row@.len() == j,
                forall|j2: int| 0 <= j2 < adj@[i as int]@.len() ==> (#[trigger] adj@[i as int]@[j2]) is Some,
                forall|j2: int| 0 <= j2 < j ==> adj@[i as int]@[j2] == Some(#[trigger] row@[j2]),
            decreases adj[i as int].len() - j,
        {
            match adj[i][j] {
                Some(d) => {
                    row.push(d);
                },
                None => {},
            }
            j = j + 1;
        }
        deps.push(row);
        i = i + 1;
    }
    deps
}

/// A set of tasks with distinct names, in the order in which the names were
/// first added.
#[derive(Debug)]
pub struct TaskGraph {
    tasks: Vec<Task>,
}

impl View for TaskGraph {
    type V = Seq<Node>;

    open spec fn view(&self) -> Seq<Node> {
        nodes_of(self.tasks())
    }
}

impl TaskGraph {
    #[verifier::type_invariant]
    spec fn names_are_distinct(self) -> bool {
        distinct_names(nodes_of(self.tasks@))
    }

    /// The tasks of the graph, in the order in which their names were added.
    pub closed spec fn tasks(self) -> Seq<Task> {
        self.tasks@
    }

    /// An empty graph.
    pub fn new() -> (g: Self)
        ensures
            g.tasks() == Seq::<Task>::empty(),
    {
        TaskGraph { tasks: Vec::new() }
    }

    /// Position of the task called `name`.
    fn find(&self, name: &str) -> (r: Option<usize>)
        ensures
            distinct_names(self@),
            match r {
                Some(i) => i < self@.len() && self@[i as int].name == name@,
                None => !has_task(self@, name@),
            },
    {
        proof {
            use_type_invariant(self);
        }
        let mut i: usize = 0;
        while i < self.tasks.len()
            invariant
                i <= self.tasks@.len(),
                distinct_names(self@),
                forall|k: int| 0 <= k < i ==> (#[trigger] self@[k]).name != name@,
            decreases self.tasks.len() - i,
        {
            if str_eq(self.tasks[i].name.as_str(), name) {
                return Some(i);
            }
            i = i + 1;
        }
        None
    }

    /// Adds a task. A task of the same name that is already in the graph is
    /// replaced and keeps its place; a new name goes to the end.
    pub fn add_task(&mut self, task: Task) -> (r: ForgeResult<()>)
        ensures
            r is Ok,
            distinct_names(final(self)@),
            has_task(old(self)@, task.name@) ==> exists|i: int|
                0 <= i < old(self)@.len() && #[trigger] old(self)@[i].name == task.name@ && final(self).tasks() == old(
                    self,
                ).tasks().update(i, task),
            !has_task(old(self)@, task.name@) ==> final(self).tasks() == old(self).tasks().push(task),
    {
        let found = self.find(task.name.as_str());
        let mut held: Vec<Task> = Vec::new();
        std::mem::swap(&mut self.tasks, &mut held);
        match found {
            Some(i) => {
                let ghost before = held@;
                let ghost after = before.update(i as int, task);
                proof {
                    assert forall|a: int, b: int|
                        0 <= a < after.len() && 0 <= b < after.len() && #[trigger] nodes_of(after)[a].name
                            == #[trigger] nodes_of(after)[b].name implies a == b by {
                        assert(nodes_of(after)[a].name == nodes_of(before)[a].name);
                        assert(nodes_of(after)[b].name == nodes_of(before)[b].name);
                    }
                }
                held.set(i, task);
            },
            None => {
                let ghost before = held@;
                let ghost after = before.push(task);
                proof {
                    assert forall|a: int, b: int|
                        0 <= a < after.len() && 0 <= b < after.len() && #[trigger] nodes_of(after)[a].name
                            == #[trigger] nodes_of(after)[b].name implies a == b by {
                        if a < before.len() {
                            assert(nodes_of(after)[a].name == nodes_of(before)[a].name);
                        }
                        if b < before.len() {
                            assert(nodes_of(after)[b].name == nodes_of(before)[b].name);
                        }
                    }
                }
                held.push(task);
            },
        }
        std::mem::swap(&mut self.tasks, &mut held);
        Ok(())
    }

    /// For every dependency of every task, the position of the task it names.
    fn resolve(&self) -> (adj: Vec<Vec<Option<usize>>>)
        ensures
            distinct_names(self@),
            resolves(self@, links(&adj)),
            in_range(links(&adj)),
    {
        let ghost g = self@;
        let n = self.tasks.len();
        let mut adj: Vec<Vec<Option<usize>>> = Vec::new();
        let mut i: usize = 0;
        proof {
            use_type_invariant(self);
        }
        while i < n
            invariant
                i <= n,
                n == self.tasks@.len(),
                g == self@,
                distinct_names(g),
                adj@.len() == i,
                forall|i2: int| 0 <= i2 < i ==> (#[trigger] adj@[i2])@.len() == g[i2].deps.len(),
                forall|i2: int, j2: int|
                    0 <= i2 < i && 0 <= j2 < g[i2].deps.len() ==> match #[trigger] adj@[i2]@[j2] {
                        Some(d) => d < g.len() && g[d as int].name == g[i2].deps[j2],
                        None => !has_task(g, g[i2].deps[j2]),
                    },
            decreases n - i,
        {
            let task = &self.tasks[i];
            let mut row: Vec<Option<usize>> = Vec::new();
            let mut j: usize = 0;
            while j < task.depends_on.len()
                invariant
                    i < n,
                    n == self.tasks@.len(),
                    g == self@,
                    task.node() == g[i as int],
                    j <= task.depends_on@.len(),
                    row@.len() == j,
                    forall|j2: int|
                        0 <= j2 < j ==> match #[trigger] row@[j2] {
                            Some(d) => d < g.len() && g[d as int].name == g[i as int].deps[j2],
                            None => !has_task(g, g[i as int].deps[j2]),
                        },
                decreases task.depends_on.len() - j,
            {
                let found = self.find(task.depends_on[j].as_str());
                row.push(found);
                j = j + 1;
            }
            adj.push(row);
            i = i + 1;
        }
        proof {
            let a = links(&adj);
            assert forall|i2: int| 0 <= i2 < a.len() implies (#[trigger] a[i2]).len() <= usize::MAX by {
                assert(adj@[i2].len() == adj@[i2]@.len());
            }
        }
        adj
    }

    /// The names of the tasks at the positions `c`, joined by arrows.
    fn cycle_message(&self, c: &Vec<usize>) -> (text: String)
        requires
            forall|k: int| 0 <= k < c@.len() ==> #[trigger] c@[k] < self@.len(),
        ensures
            text@ == cycle_text(names_at(self@, c@)),
    {
        let ghost names = names_at(self@, c@);
        let mut text = String::new();
        let mut k: usize = 0;
        while k < c.len()
            invariant
                k <= c@.len(),
                names == names_at(self@, c@),
                forall|m: int| 0 <= m < c@.len() ==> #[trigger] c@[m] < self@.len(),
                text@ == join(names.take(k as int), " → "@),
            decreases c.len() - k,
        {
            proof {
                assert(names.take(k + 1).drop_last() =~= names.take(k as int));
            }
            if k > 0 {
                text.append(" → ");
            }
            text.append(self.tasks[c[k]].name.as_str());
            k = k + 1;
        }
        proof {
            assert(names.take(c@.len() as int) =~= names);
        }
        text
    }

    /// Validates the graph and, on success, resolves every dependency to the
    /// position of the task it names; the ranking shows that there is no cycle.
    fn checked(&self) -> (r: Result<(Vec<Vec<usize>>, Ghost<Seq<nat>>), ForgeError>)
        ensures
            distinct_names(self@),
            match r {
                Ok((deps, rank)) => {
                    &&& validation(self@, Ok(()))
                    &&& matches_names(self@, dep_lists(&deps))
                    &&& closed_graph(dep_lists(&deps))
                    &&& dep_ranked(dep_lists(&deps), rank@)
                    &&& ranked(self@, rank@)
                },
                Err(e) => validation(self@, Err(e)),
            },
    {
        let ghost g = self@;
        let adj = self.resolve();
        let ghost a = links(&adj);
        let (found, Ghost(rank), Ghost(walk), Ghost(pos)) = find_cycle(&adj);
        match found {
            Some(c) => {
                proof {
                    lemma_lift_cycle(g, a, c@);
                    lemma_lift_search(g, a, walk, pos);
                    assert(names_at(g, c@) =~= names_along(g, walk.skip(pos)));
                }
                let cycle = self.cycle_message(&c);
                Err(ForgeError::CyclicDependency { cycle })
            },
            None => {
                proof {
                    lemma_lift_rank(g, a, rank);
                }
                match first_missing(&adj) {
                    Some((i, j)) => {
                        let task = &self.tasks[i];
                        proof {
                            assert(a[i as int][j as int] == adj@[i as int]@[j as int]);
                            assert forall|i2: int, j2: int| #[trigger] dangling(g, i2, j2) implies i < i2 || (i == i2
                                && j <= j2) by {
                                assert(a[i2][j2] is None);
                            }
                            assert(first_dangling(g, i as int, j as int));
                        }
                        let mut task_name = String::from_str("'");
                        task_name.append(task.depends_on[j].as_str());
                        task_name.append("' (referenciada por '");
                        task_name.append(task.name.as_str());
                        task_name.append("')");
                        Err(ForgeError::TaskNotFound { task_name })
                    },
                    None => {
                        let deps = unwrap_links(&adj);
                        proof {
                            let d = dep_lists(&deps);
                            assert forall|i2: int, j2: int| 0 <= i2 < g.len() && 0 <= j2 < g[i2].deps.len() implies #[trigger] d[i2][j2]
                                < g.len() && g[d[i2][j2] as int].name == g[i2].deps[j2] by {
                                assert(a[i2][j2] == adj@[i2]@[j2]);
                            }
                            assert forall|i2: int| 0 <= i2 < g.len() implies (#[trigger] d[i2]).len() == g[i2].deps.len() by {
                                assert(a[i2] == adj@[i2]@);
                            }
                            assert forall|i2: int, j2: int| !#[trigger] dangling(g, i2, j2) by {
                                if dangling(g, i2, j2) {
                                    let t = a[i2][j2]->0;
                                }
                            }
                            assert forall|i2: int| 0 <= i2 < d.len() implies (#[trigger] d[i2]).len() <= usize::MAX by {
                                assert(deps@[i2].len() == deps@[i2]@.len());
                            }
                        }
                        Ok((deps, Ghost(rank)))
                    },
                }
            },
        }
    }

    /// Checks that no task depends on itself through a chain of
    /// dependencies, and then that every dependency names a task.
    pub fn validate(&self) -> (r: ForgeResult<()>)
        ensures
            distinct_names(self@),
            validation(self@, r),
    {
        match self.checked() {
            Ok(_) => Ok(()),
            Err(e) => Err(e),
        }
    }

    /// The names of the tasks at the positions `idx`.
    fn names_for(&self, idx: &Vec<usize>) -> (out: Vec<String>)
        requires
            forall|p: int| 0 <= p < idx@.len() ==> #[trigger] idx@[p] < self@.len(),
        ensures
            texts(out@) == names_at(self@, idx@),
    {
        let mut out: Vec<String> = Vec::new();
        let mut p: usize = 0;
        while p < idx.len()
            invariant
                p <= idx@.len(),
                forall|q: int| 0 <= q < idx@.len() ==> #[trigger] idx@[q] < self@.len(),
                out@.len() == p,
                forall|q: int| 0 <= q < p ==> (#[trigger] out@[q])@ == self@[idx@[q] as int].name,
            decreases idx.len() - p,
        {
            out.push(self.tasks[idx[p]].name.clone());
            p = p + 1;
        }
        out
    }

    /// The task names in the order of Kahn's algorithm with a first-in,
    /// first-out queue, after validation. Tasks that are ready at the same
    /// moment come in the order in which they were added to the graph. A task
    /// that lists a dependency twice never becomes ready, nor does a task that
    /// depends on it; in a graph without such lists the result holds every
    /// task once.
    pub fn topological_order(&self) -> (r: ForgeResult<Vec<String>>)
        ensures
            distinct_names(self@),
            match r {
                Ok(order) => {
                    &&& validation(self@, Ok(()))
                    &&& is_fifo_order(self@, texts(order@))
                    &&& no_repeated_deps(self@) ==> is_permutation(self@, texts(order@))
                },
                Err(e) => validation(self@, Err(e)),
            },
    {
        match self.checked() {
            Ok((deps, _)) => {
                let idx = kahn_order(&deps);
                proof {
                    lemma_lift_order(self@, dep_lists(&deps), idx@);
                }
                let order = self.names_for(&idx);
                proof {
                    if no_repeated_deps(self@) {
                        lemma_fifo_order_is_permutation(self@, texts(order@));
                    }
                }
                Ok(order)
            },
            Err(e) => Err(e),
        }
    }

    /// The levels of execution, after validation: level 0 holds the tasks
    /// without dependencies, and every other task is in the level that
    /// follows the last level of its dependencies. The tasks of one level do
    /// not depend on each other and may run at the same time.
    pub fn parallel_levels(&self) -> (r: ForgeResult<Vec<Vec<String>>>)
        ensures
            distinct_names(self@),
            match r {
                Ok(levels) => validation(self@, Ok(())) && is_level_order(self@, level_texts(levels@)),
                Err(e) => validation(self@, Err(e)),
            },
    {
        match self.checked() {
            Ok((deps, rank)) => {
                let idx = level_sets(&deps, rank);
                let ghost li = level_seqs(&idx);
                let ghost g = self@;
                proof {
                    lemma_lift_levels(g, dep_lists(&deps), li);
                }
                let mut levels: Vec<Vec<String>> = Vec::new();
                let mut k: usize = 0;
                while k < idx.len()
                    invariant
                        k <= idx@.len(),
                        g == self@,
                        li == level_seqs(&idx),
                        is_leveling(dep_lists(&deps), li),
                        matches_names(g, dep_lists(&deps)),
                        levels@.len() == k,
                        forall|e: int| 0 <= e < k ==> texts((#[trigger] levels@[e])@) == names_at(g, li[e]),
                    decreases idx.len() - k,
                {
                    assert forall|p: int| 0 <= p < idx@[k as int]@.len() implies #[trigger] idx@[k as int]@[p] < self@.len() by {
                        assert(li[k as int][p] < dep_lists(&deps).len());
                    }
                    let names = self.names_for(&idx[k]);
                    levels.push(names);
                    k = k + 1;
                }
                assert(level_texts(levels@) =~= level_names(g, li));
                Ok(levels)
            },
            Err(e) => Err(e),
        }
    }

    /// The task called `name`, if the graph has one.
    pub fn get_task(&self, name: &str) -> (r: Option<&Task>)
        ensures
            match r {
                Some(t) => t.name@ == name@ && self.tasks().contains(*t),
                None => !has_task(self@, name@),
            },
    {
        match self.find(name) {
            Some(i) => {
                Some(&self.tasks[i])
            },
            None => None,
        }
    }

    /// The number of tasks.
    pub fn len(&self) -> (n: usize)
        ensures
            n == self@.len(),
    {
        self.tasks.len()
    }

    /// Whether the graph has no task.
    pub fn is_empty(&self) -> (r: bool)
        ensures
            r == (self@.len() == 0),
    {
        self.tasks.len() == 0
    }
}

impl Default for TaskGraph {
    fn default() -> (g: Self)
        ensures
            g.tasks() == Seq::<Task>::empty(),
    {
        TaskGraph::new()
    }
}

} // verus!
