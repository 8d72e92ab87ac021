//! The walk over the dependencies of dependencies, as a work list: every
//! coordinate is handed out once for each target directory, depth first in
//! the order of declaration, and no deeper than a fixed number of steps from
//! the project's own dependencies. Fetching is the caller's part.

use vstd::prelude::*;
use vstd::string::StringExecFns;
use crate::maven::MavenCoordinate;
use crate::pom::Triple;
use crate::text::texts;

verus! {

/// How many steps below the project's own dependencies the walk goes.
pub const MAX_DEPTH: usize = 5;

/// A coordinate to resolve, with its distance from the project's own
/// dependencies.
#[derive(Debug, Clone)]
pub struct WorkItem {
    pub coordinate: MavenCoordinate,
    pub depth: usize,
}

/// A work item as text and number.
pub type Item = (Triple, nat);

impl WorkItem {
    /// The item as text and number.
    pub open spec fn item(self) -> Item {
        ((self.coordinate.group_id@, self.coordinate.artifact_id@, self.coordinate.version@), self.depth as nat)
    }
}

/// The items of a vector of work items.
pub open spec fn items(v: Seq<WorkItem>) -> Seq<Item> {
    Seq::new(v.len(), |i: int| v[i].item())
}

/// The key under which a coordinate counts as resolved for a directory.
pub open spec fn key_text(dir: Seq<char>, t: Triple) -> Seq<char> {
    dir + ":"@ + t.0 + ":"@ + t.1 + ":"@ + t.2
}

/// Whether an item is to be resolved: it is not too deep and its coordinate
/// is not resolved for the directory.
pub open spec fn is_due(resolved: Seq<Seq<char>>, dir: Seq<char>, item: Item) -> bool {
    item.1 <= MAX_DEPTH && !resolved.contains(key_text(dir, item.0))
}

/// The coordinates in reverse order, all at the given depth.
pub open spec fn stacked(found: Seq<MavenCoordinate>, depth: nat) -> Seq<Item> {
    Seq::new(
        found.len(),
        |i: int|
            (
                (
                    found[found.len() - 1 - i].group_id@,
                    found[found.len() - 1 - i].artifact_id@,
                    found[found.len() - 1 - i].version@,
                ),
                depth,
            ),
    )
}

/// The key under which `coordinate` counts as resolved for `target_dir`.
pub fn resolution_key(target_dir: &str, coordinate: &MavenCoordinate) -> (key: String)
    ensures
        key@ == key_text(target_dir@, (coordinate.group_id@, coordinate.artifact_id@, coordinate.version@)),
{
    let mut key = String::from_str(target_dir);
    key.append(":");
    key.append(coordinate.display().as_str());
    key
}

/// Whether `key` is among `keys`.
fn has_key(keys: &Vec<String>, key: &String) -> (r: bool)
    ensures
        r == texts(keys@).contains(key@),
{
    let mut i: usize = 0;
    while i < keys.len()
        invariant
            i <= keys@.len(),
            forall|k: int| 0 <= k < i ==> texts(keys@)[k] != key@,
        decreases keys.len() - i,
    {
        if keys[i] == *key {
            assert(texts(keys@)[i as int] == key@);
            return true;
        }
        i = i + 1;
    }
    false
}

/// The work list of a resolver of Maven dependencies.
#[derive(Debug)]
pub struct MavenResolver {
    resolved: Vec<String>,
    pending: Vec<WorkItem>,
    target_dir: String,
}

impl MavenResolver {
    #[verifier::type_invariant]
    spec fn resolved_once(self) -> bool {
        texts(self.resolved@).no_duplicates()
    }

    /// The keys resolved so far, in the order in which they were resolved.
    pub closed spec fn resolved(self) -> Seq<Seq<char>> {
        texts(self.resolved@)
    }

    /// The items still to look at; the last one comes first.
    pub closed spec fn pending(self) -> Seq<Item> {
        items(self.pending@)
    }

    /// The directory that is resolved into.
    pub closed spec fn dir(self) -> Seq<char> {
        self.target_dir@
    }

    /// A resolver that has resolved nothing, has nothing pending, and has
    /// no directory to resolve into yet.
    pub fn new() -> (r: Self)
        ensures
            r.resolved() == Seq::<Seq<char>>::empty(),
            r.pending() == Seq::<Item>::empty(),
            r.dir() == Seq::<char>::empty(),
    {
        let r = MavenResolver { resolved: Vec::new(), pending: Vec::new(), target_dir: String::new() };
        r
    }

    /// Starts to resolve `roots` into `target_dir`. What was resolved before
    /// stays resolved; what was pending is dropped.
    pub fn begin(&mut self, target_dir: &str, roots: &Vec<MavenCoordinate>)
        ensures
            final(self).dir() == target_dir@,
            final(self).resolved() == old(self).resolved(),
            final(self).pending() == stacked(roots@, 0),
    {
        proof {
            use_type_invariant(&*self);
        }
        self.target_dir = String::from_str(target_dir);
        self.pending = Vec::new();
        self.push_all(roots, 0);
    }

    /// Puts the coordinates on the work list so that the first one comes
    /// out first.
    fn push_all(&mut self, found: &Vec<MavenCoordinate>, depth: usize)
        ensures
            final(self).dir() == old(self).dir(),
            final(self).resolved() == old(self).resolved(),
            final(self).pending() == old(self).pending() + stacked(found@, depth as nat),
    {
        proof {
            use_type_invariant(&*self);
        }
        let ghost before = self.pending();
        let ghost all = stacked(found@, depth as nat);
        let mut held: Vec<WorkItem> = Vec::new();
        std::mem::swap(&mut self.pending, &mut held);
        let mut i: usize = found.len();
        while i > 0
            invariant
                i <= found@.len(),
                all == stacked(found@, depth as nat),
                items(held@) == before + all.take(found@.len() - i),
            decreases i,
        {
            i = i - 1;
            let ghost so_far = items(held@);
            held.push(WorkItem { coordinate: clone_coordinate(&found[i]), depth });
            proof {
                let k = found@.len() - 1 - i;
                assert(items(held@) =~= so_far.push(all[k]));
            }
        }
        std::mem::swap(&mut self.pending, &mut held);
    }

    /// The next coordinate to fetch, which from now on counts as resolved
    /// for the directory. Items that are too deep or already resolved are
    /// dropped on the way. None when the work list is used up.
    pub fn next(&mut self) -> (r: Option<WorkItem>)
        ensures
            final(self).dir() == old(self).dir(),
            final(self).resolved().no_duplicates(),
            match r {
                Some(w) => exists|k: int|
                    {
                        &&& 0 <= k < old(self).pending().len()
                        &&& #[trigger] old(self).pending()[k] == w.item()
                        &&& is_due(old(self).resolved(), old(self).dir(), w.item())
                        &&& forall|j: int|
                            k < j < old(self).pending().len() ==> !is_due(
                                old(self).resolved(),
                                old(self).dir(),
                                #[trigger] old(self).pending()[j],
                            )
                        &&& final(self).pending() == old(self).pending().take(k)
                        &&& final(self).resolved() == old(self).resolved().push(
                            key_text(old(self).dir(), w.item().0),
                        )
                    },
                None => {
                    &&& forall|j: int|
                        0 <= j < old(self).pending().len() ==> !is_due(
                            old(self).resolved(),
                            old(self).dir(),
                            #[trigger] old(self).pending()[j],
                        )
                    &&& final(self).pending() == Seq::<Item>::empty()
                    &&& final(self).resolved() == old(self).resolved()
                },
            },
    {
        proof {
            use_type_invariant(&*self);
        }
        let ghost start = self.pending();
        let ghost keys = self.resolved();
        let ghost dir = self.dir();
        let mut held: Vec<WorkItem> = Vec::new();
        std::mem::swap(&mut self.pending, &mut held);
        let mut found: Option<WorkItem> = None;
        while held.len() > 0
            invariant
                held@.len() <= start.len(),
                items(held@) == start.take(held@.len() as int),
                forall|j: int| held@.len() <= j < start.len() ==> !is_due(keys, dir, #[trigger] start[j]),
                keys == self.resolved(),
                dir == self.dir(),
                keys == old(self).resolved(),
                dir == old(self).dir(),
                start == old(self).pending(),
                keys.no_duplicates(),
                found is None,
            decreases held.len(),
        {
            let ghost k = held@.len() - 1;
            let top = held.pop();
            match top {
                Some(w) => {
                    assert(w.item() == start.take(k + 1)[k]);
                    let key = resolution_key(self.target_dir.as_str(), &w.coordinate);
                    if w.depth <= MAX_DEPTH && !has_key(&self.resolved, &key) {
                        found = Some(w);
                        let mut marked: Vec<String> = Vec::new();
                        std::mem::swap(&mut self.resolved, &mut marked);
                        marked.push(key);
                        proof {
                            assert(texts(marked@) =~= keys.push(key@));
                        }
                        std::mem::swap(&mut self.resolved, &mut marked);
                        std::mem::swap(&mut self.pending, &mut held);
                        return found;
                    }
                },
                None => {},
            }
        }
        std::mem::swap(&mut self.pending, &mut held);
        None
    }

    /// Puts what `parent` depends on onto the work list, one step deeper,
    /// so that its dependencies come out next and in their order.
    pub fn expand(&mut self, parent: &WorkItem, found: &Vec<MavenCoordinate>)
        requires
            parent.depth <= MAX_DEPTH,
        ensures
            final(self).dir() == old(self).dir(),
            final(self).resolved() == old(self).resolved(),
            final(self).pending() == old(self).pending() + stacked(found@, (parent.depth + 1) as nat),
    {
        self.push_all(found, parent.depth + 1);
    }

    /// Whether `coordinate` counts as resolved for the directory.
    pub fn is_resolved(&self, coordinate: &MavenCoordinate) -> (r: bool)
        ensures
            r == self.resolved().contains(
                key_text(self.dir(), (coordinate.group_id@, coordinate.artifact_id@, coordinate.version@)),
            ),
    {
        let key = resolution_key(self.target_dir.as_str(), coordinate);
        has_key(&self.resolved, &key)
    }
}

/// A copy of a coordinate.
fn clone_coordinate(c: &MavenCoordinate) -> (r: MavenCoordinate)
    ensures
        r.group_id@ == c.group_id@,
        r.artifact_id@ == c.artifact_id@,
        r.version@ == c.version@,
{
    MavenCoordinate { group_id: c.group_id.clone(), artifact_id: c.artifact_id.clone(), version: c.version.clone() }
}

} // verus!
