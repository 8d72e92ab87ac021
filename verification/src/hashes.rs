//! A map from file path to content hash, kept sorted by path so that it can
//! be walked in one fixed order.

use vstd::prelude::*;
use crate::lex::{compare, lemma_text_order, text_lt, Place};

verus! {

/// A path with its hash, as text.
pub type Pair = (Seq<char>, Seq<char>);

/// The paths rise strictly from each pair to the next.
pub open spec fn strictly_sorted(s: Seq<Pair>) -> bool {
    forall|i: int, j: int| 0 <= i < j < s.len() ==> text_lt(#[trigger] s[i].0, #[trigger] s[j].0)
}

/// Some pair of `s` has the path `k`.
pub open spec fn has_key(s: Seq<Pair>, k: Seq<char>) -> bool {
    exists|i: int| 0 <= i < s.len() && (#[trigger] s[i]).0 == k
}

/// Place of the pair with path `k`.
pub open spec fn key_index(s: Seq<Pair>, k: Seq<char>) -> int {
    choose|i: int| 0 <= i < s.len() && (#[trigger] s[i]).0 == k
}

/// The map that the pairs of `s` describe.
pub open spec fn map_of(s: Seq<Pair>) -> Map<Seq<char>, Seq<char>> {
    Map::new(|k: Seq<char>| has_key(s, k), |k: Seq<char>| s[key_index(s, k)].1)
}

/// `s` lists the entries of `m` by rising path.
pub open spec fn is_listing(s: Seq<Pair>, m: Map<Seq<char>, Seq<char>>) -> bool {
    &&& strictly_sorted(s)
    &&& forall|i: int| 0 <= i < s.len() ==> m.contains_pair((#[trigger] s[i]).0, s[i].1)
    &&& forall|k: Seq<char>| #[trigger] m.dom().contains(k) ==> has_key(s, k)
}

/// The entries of `m` by rising path.
pub open spec fn listing(m: Map<Seq<char>, Seq<char>>) -> Seq<Pair> {
    choose|s: Seq<Pair>| is_listing(s, m)
}

/// In a sorted sequence the path determines the place.
pub proof fn lemma_sorted_keys_distinct(s: Seq<Pair>, i: int, j: int)
    requires
        strictly_sorted(s),
        0 <= i < s.len(),
        0 <= j < s.len(),
        s[i].0 == s[j].0,
    ensures
        i == j,
{
}

/// A map has at most one listing.
pub proof fn lemma_listing_unique(m: Map<Seq<char>, Seq<char>>, s: Seq<Pair>, t: Seq<Pair>)
    requires
        is_listing(s, m),
        is_listing(t, m),
    ensures
        s == t,
    decreases s.len(),
{
    if s.len() == 0 {
    } else {
        let a = s.last();
        let b = t.last();
        let m2 = m.remove(a.0);
        let s2 = s.drop_last();
        let t2 = t.drop_last();
        lemma_drop_last_listing(m, s);
        lemma_drop_last_listing(m, t);
        lemma_listing_unique(m2, s2, t2);
        assert(t =~= t2.push(b));
    }
}

/// Without its last pair, a listing lists the map without that path.
proof fn lemma_drop_last_listing(m: Map<Seq<char>, Seq<char>>, s: Seq<Pair>)
    requires
        is_listing(s, m),
        s.len() > 0,
    ensures
        is_listing(s.drop_last(), m.remove(s.last().0)),
{
    let a = s.last();
    let s2 = s.drop_last();
    let m2 = m.remove(a.0);
    assert forall|k: Seq<char>| #[trigger] m2.dom().contains(k) implies has_key(s2, k) by {
        let i = key_index(s, k);
        assert(s2[i].0 == k);
    }
}

/// A sorted sequence is the listing of the map it describes.
pub proof fn lemma_sorted_is_listing(s: Seq<Pair>)
    requires
        strictly_sorted(s),
    ensures
        is_listing(s, map_of(s)),
        s == listing(map_of(s)),
{
    lemma_listing_unique(map_of(s), s, listing(map_of(s)));
}

/// A map with a listing has as many entries as the listing is long.
pub proof fn lemma_listing_len(s: Seq<Pair>, m: Map<Seq<char>, Seq<char>>)
    requires
        is_listing(s, m),
    ensures
        m.dom().finite(),
        m.dom().len() == s.len(),
{
    let keys = Seq::new(s.len(), |i: int| s[i].0);
    assert(keys.to_set() =~= m.dom()) by {
        assert forall|k: Seq<char>| m.dom().contains(k) implies keys.to_set().contains(k) by {
            let i = key_index(s, k);
            assert(keys[i] == k);
        }
    }
    keys.unique_seq_to_set();
}

/// The pairs of a vector of string pairs, as text.
pub open spec fn pairs_of(v: Seq<(String, String)>) -> Seq<Pair> {
    Seq::new(v.len(), |i: int| (v[i].0@, v[i].1@))
}

/// A map from file path to content hash.
#[derive(Debug)]
pub struct FileHashes {
    entries: Vec<(String, String)>,
}

impl View for FileHashes {
    type V = Map<Seq<char>, Seq<char>>;

    closed spec fn view(&self) -> Map<Seq<char>, Seq<char>> {
        map_of(pairs_of(self.entries@))
    }
}

impl FileHashes {
    #[verifier::type_invariant]
    spec fn sorted_by_path(self) -> bool {
        strictly_sorted(pairs_of(self.entries@))
    }

    /// The entries by rising path.
    pub closed spec fn pairs(self) -> Seq<Pair> {
        pairs_of(self.entries@)
    }

    /// An empty map.
    pub fn new() -> (m: Self)
        ensures
            m@ == Map::<Seq<char>, Seq<char>>::empty(),
            m.pairs() == Seq::<Pair>::empty(),
    {
        let m = FileHashes { entries: Vec::new() };
        m
    }

    /// The first place whose path does not come before `path`, and whether
    /// that place holds `path` itself.
    fn locate(&self, path: &str) -> (r: (usize, bool))
        ensures
            strictly_sorted(self.pairs()),
            r.0 <= self.pairs().len(),
            forall|i: int| 0 <= i < r.0 ==> text_lt((#[trigger] self.pairs()[i]).0, path@),
            r.1 ==> r.0 < self.pairs().len() && self.pairs()[r.0 as int].0 == path@,
            !r.1 ==> forall|i: int| r.0 <= i < self.pairs().len() ==> text_lt(path@, (#[trigger] self.pairs()[i]).0),
            r.1 == has_key(self.pairs(), path@),
    {
        proof {
            use_type_invariant(self);
        }
        let ghost p = self.pairs();
        let mut i: usize = 0;
        while i < self.entries.len()
            invariant
                i <= self.entries@.len(),
                p == self.pairs(),
                strictly_sorted(p),
                forall|k: int| 0 <= k < i ==> text_lt((#[trigger] p[k]).0, path@),
            decreases self.entries.len() - i,
        {
            let place = compare(self.entries[i].0.as_str(), path);
            match place {
                Place::Before => {},
                Place::Same => {
                    return (i, true);
                },
                Place::After => {
                    proof {
                        assert forall|k: int| i <= k < p.len() implies text_lt(path@, (#[trigger] p[k]).0) by {
                            if k > i {
                                lemma_text_order(path@, p[i as int].0, p[k].0);
                            }
                        }
                    }
                    return (i, false);
                },
            }
            i = i + 1;
        }
        (i, false)
    }

    /// The number of entries.
    pub fn len(&self) -> (n: usize)
        ensures
            n == listing(self@).len(),
            is_listing(listing(self@), self@),
            self@.dom().finite(),
            n == self@.len(),
    {
        proof {
            use_type_invariant(self);
            lemma_sorted_is_listing(self.pairs());
            lemma_listing_len(self.pairs(), self@);
        }
        self.entries.len()
    }

    /// Whether the map has no entry.
    pub fn is_empty(&self) -> (r: bool)
        ensures
            r == (self@ == Map::<Seq<char>, Seq<char>>::empty()),
    {
        proof {
            use_type_invariant(self);
            if self.entries@.len() == 0 {
                assert(self@ =~= Map::<Seq<char>, Seq<char>>::empty());
            } else {
                assert(self@.contains_pair(self.pairs()[0].0, self.pairs()[0].1));
            }
        }
        self.entries.len() == 0
    }

    /// The hash stored for `path`.
    pub fn get(&self, path: &str) -> (r: Option<&String>)
        ensures
            match r {
                Some(h) => self@.contains_pair(path@, h@),
                None => !self@.dom().contains(path@),
            },
    {
        let (i, found) = self.locate(path);
        if found {
            Some(&self.entries[i].1)
        } else {
            None
        }
    }

    /// Whether a hash is stored for `path`.
    pub fn contains_key(&self, path: &str) -> (r: bool)
        ensures
            r == self@.dom().contains(path@),
    {
        self.get(path).is_some()
    }

    /// Stores `hash` for `path`, in place of what was stored for it.
    pub fn insert(&mut self, path: String, hash: String)
        ensures
            final(self)@ == old(self)@.insert(path@, hash@),
    {
        let (i, found) = self.locate(path.as_str());
        let ghost p = self.pairs();
        let ghost k = path@;
        let ghost v = hash@;
        let mut held: Vec<(String, String)> = Vec::new();
        std::mem::swap(&mut self.entries, &mut held);
        if found {
            held.set(i, (path, hash));
            proof {
                let after = pairs_of(held@);
                assert(after =~= p.update(i as int, (k, v)));
                lemma_put(p, after, k, v, i as int);
            }
        } else {
            held.insert(i, (path, hash));
            proof {
                let after = pairs_of(held@);
                assert(after =~= p.insert(i as int, (k, v)));
                lemma_put(p, after, k, v, i as int);
            }
        }
        std::mem::swap(&mut self.entries, &mut held);
    }

    /// The path at place `i` of the listing.
    pub fn path_at(&self, i: usize) -> (r: &String)
        requires
            i < listing(self@).len(),
        ensures
            r@ == listing(self@)[i as int].0,
    {
        proof {
            use_type_invariant(self);
            lemma_sorted_is_listing(self.pairs());
        }
        &self.entries[i].0
    }

    /// The hash at place `i` of the listing.
    pub fn hash_at(&self, i: usize) -> (r: &String)
        requires
            i < listing(self@).len(),
        ensures
            r@ == listing(self@)[i as int].1,
    {
        proof {
            use_type_invariant(self);
            lemma_sorted_is_listing(self.pairs());
        }
        &self.entries[i].1
    }
}

/// Putting a pair at its place in a sorted sequence describes the map with
/// that entry set.
proof fn lemma_put(p: Seq<Pair>, after: Seq<Pair>, k: Seq<char>, v: Seq<char>, i: int)
    requires
        strictly_sorted(p),
        strictly_sorted(after),
        0 <= i <= p.len(),
        (i < p.len() && p[i].0 == k && after == p.update(i, (k, v))) || (!has_key(p, k) && after == p.insert(i, (k, v))),
    ensures
        map_of(after) == map_of(p).insert(k, v),
{
    let m = map_of(p);
    let m2 = map_of(after);
    let replaced = i < p.len() && p[i].0 == k && after == p.update(i, (k, v));
    assert forall|x: Seq<char>| m2.dom().contains(x) <==> m.insert(k, v).dom().contains(x) by {
        if m.dom().contains(x) {
            let a = key_index(p, x);
            if replaced {
                assert(after[a].0 == x);
            } else {
                if a < i {
                    assert(after[a].0 == x);
                } else {
                    assert(after[a + 1].0 == x);
                }
            }
        }
        if x == k {
            assert(after[i].0 == k);
        }
    }
}

impl Clone for FileHashes {
    fn clone(&self) -> (m: Self)
        ensures
            m@ == self@,
    {
        proof {
            use_type_invariant(self);
        }
        let mut entries: Vec<(String, String)> = Vec::new();
        let mut i: usize = 0;
        while i < self.entries.len()
            invariant
                i <= self.entries@.len(),
                entries@.len() == i,
                forall|k: int| 0 <= k < i ==> (#[trigger] entries@[k]).0@ == self.entries@[k].0@ && entries@[k].1@
                    == self.entries@[k].1@,
            decreases self.entries.len() - i,
        {
            entries.push((self.entries[i].0.clone(), self.entries[i].1.clone()));
            i = i + 1;
        }
        assert(pairs_of(entries@) =~= pairs_of(self.entries@));
        FileHashes { entries }
    }
}

impl Default for FileHashes {
    fn default() -> (m: Self)
        ensures
            m@ == Map::<Seq<char>, Seq<char>>::empty(),
    {
        FileHashes::new()
    }
}

} // verus!
