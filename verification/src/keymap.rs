//! A small association map from `u64` keys to copyable values, backed by a
//! vector of pairs with pairwise-distinct keys.  It stands in for the ordered
//! key-value containers the kernel uses for per-page frame ownership, page
//! directories, and per-syscall counters, and its view is a mathematical
//! `Map<u64, V>`.

use vstd::prelude::*;

verus! {

/// All keys in the pair sequence are pairwise distinct.
pub open spec fn distinct_keys<V>(s: Seq<(u64, V)>) -> bool {
    forall|i: int, j: int| 0 <= i < j < s.len() ==> s[i].0 != s[j].0
}

/// The mathematical map described by a sequence of pairs (later pairs win).
pub open spec fn map_of<V>(s: Seq<(u64, V)>) -> Map<u64, V>
    decreases s.len(),
{
    if s.len() == 0 {
        Map::empty()
    } else {
        map_of(s.drop_last()).insert(s.last().0, s.last().1)
    }
}

/// A key is in `map_of(s)` exactly when some pair of `s` holds it.
pub proof fn lemma_map_of_contains<V>(s: Seq<(u64, V)>, k: u64)
    ensures
        map_of(s).contains_key(k) <==> exists|i: int| 0 <= i < s.len() && s[i].0 == k,
    decreases s.len(),
{
    if s.len() > 0 {
        lemma_map_of_contains(s.drop_last(), k);
        if s.last().0 == k {
            assert(s[s.len() - 1].0 == k);
        } else {
            if exists|i: int| 0 <= i < s.len() && s[i].0 == k {
                let i = choose|i: int| 0 <= i < s.len() && s[i].0 == k;
                assert(s.drop_last()[i].0 == k);
            }
        }
    }
}

/// With distinct keys, each pair's value is the map's value at its key.
pub proof fn lemma_map_of_index<V>(s: Seq<(u64, V)>, i: int)
    requires
        distinct_keys(s),
        0 <= i < s.len(),
    ensures
        map_of(s).contains_key(s[i].0),
        map_of(s)[s[i].0] == s[i].1,
    decreases s.len(),
{
    lemma_map_of_contains(s, s[i].0);
    if i < s.len() - 1 {
        assert(s[i].0 != s.last().0);
        assert(s.drop_last()[i] == s[i]);
        lemma_map_of_index(s.drop_last(), i);
    }
}

/// With distinct keys, the map's domain is finite and as large as the sequence.
pub proof fn lemma_map_of_len<V>(s: Seq<(u64, V)>)
    requires
        distinct_keys(s),
    ensures
        map_of(s).dom().finite(),
        map_of(s).dom().len() == s.len(),
    decreases s.len(),
{
    broadcast use vstd::set::group_set_axioms;

    if s.len() > 0 {
        lemma_map_of_len(s.drop_last());
        lemma_map_of_contains(s.drop_last(), s.last().0);
        assert(forall|i: int| 0 <= i < s.len() - 1 ==> s.drop_last()[i] == s[i]);
        assert(!map_of(s.drop_last()).contains_key(s.last().0));
        assert(map_of(s).dom() =~= map_of(s.drop_last()).dom().insert(s.last().0));
    }
}

/// An association map with `u64` keys and pairwise-distinct entries.
#[derive(Debug)]
pub struct KeyMap<V> {
    /// The key-value pairs; no key occurs twice.
    pub pairs: Vec<(u64, V)>,
}

impl<V: Copy> KeyMap<V> {
    /// The mathematical map this container holds.
    pub open spec fn view(self) -> Map<u64, V> {
        map_of(self.pairs@)
    }

    /// Keys are pairwise distinct.
    pub open spec fn wf(self) -> bool {
        distinct_keys(self.pairs@)
    }

    /// Number of entries.
    pub open spec fn spec_len(self) -> int {
        self.pairs@.len() as int
    }

    /// An empty map.
    pub fn new() -> (r: KeyMap<V>)
        ensures
            r.wf(),
            r.view() == Map::<u64, V>::empty(),
            r.spec_len() == 0,
    {
        KeyMap { pairs: Vec::new() }
    }

    /// Number of entries.
    pub fn len(&self) -> (r: usize)
        requires
            self.wf(),
        ensures
            r == self.spec_len(),
            r == self.view().dom().len(),
            self.view().dom().finite(),
    {
        proof {
            lemma_map_of_len(self.pairs@);
        }
        self.pairs.len()
    }

    /// Position of `k` in the pair vector, if present.
    fn position(&self, k: u64) -> (r: Option<usize>)
        ensures
            match r {
                Some(i) => i < self.pairs@.len() && self.pairs@[i as int].0 == k,
                None => forall|i: int| 0 <= i < self.pairs@.len() ==> self.pairs@[i].0 != k,
            },
    {
        let n = self.pairs.len();
        let mut i: usize = 0;
        while i < n
            invariant
                n == self.pairs@.len(),
                i <= n,
                forall|j: int| 0 <= j < i ==> self.pairs@[j].0 != k,
            decreases n - i,
        {
            if self.pairs[i].0 == k {
                return Some(i);
            }
            i = i + 1;
        }
        None
    }

    /// Whether the map holds key `k`.
    pub fn contains_key(&self, k: u64) -> (r: bool)
        ensures
            r == self.view().contains_key(k),
    {
        proof {
            lemma_map_of_contains(self.pairs@, k);
        }
        self.position(k).is_some()
    }

    /// The value at key `k`, if present.
    pub fn get(&self, k: u64) -> (r: Option<V>)
        requires
            self.wf(),
        ensures
            r == if self.view().contains_key(k) { Some(self.view()[k]) } else { None::<V> },
    {
        proof {
            lemma_map_of_contains(self.pairs@, k);
        }
        match self.position(k) {
            Some(i) => {
                proof {
                    lemma_map_of_index(self.pairs@, i as int);
                }
                Some(self.pairs[i].1)
            },
            None => None,
        }
    }

    /// Insert `v` at key `k`, replacing any previous value.
    pub fn insert(&mut self, k: u64, v: V)
        requires
            old(self).wf(),
        ensures
            final(self).wf(),
            final(self).view() == old(self).view().insert(k, v),
            final(self).spec_len() == old(self).spec_len()
                + if old(self).view().contains_key(k) { 0int } else { 1int },
    {
        proof {
            lemma_map_of_contains(self.pairs@, k);
        }
        match self.position(k) {
            Some(i) => {
                let ghost before = self.pairs@;
                self.pairs[i] = (k, v);
                proof {
                    lemma_keymap_update(before, self.pairs@, i as int, k, v);
                }
            },
            None => {
                let ghost before = self.pairs@;
                self.pairs.push((k, v));
                proof {
                    assert(self.pairs@.drop_last() =~= before);
                }
            },
        }
    }

    /// Remove key `k`, returning its value if it was present.
    pub fn remove(&mut self, k: u64) -> (r: Option<V>)
        requires
            old(self).wf(),
        ensures
            final(self).wf(),
            final(self).view() == old(self).view().remove(k),
            r == if old(self).view().contains_key(k) {
                Some(old(self).view()[k])
            } else {
                None::<V>
            },
            final(self).spec_len() == old(self).spec_len()
                - if old(self).view().contains_key(k) { 1int } else { 0int },
    {
        proof {
            lemma_map_of_contains(self.pairs@, k);
        }
        match self.position(k) {
            Some(i) => {
                proof {
                    lemma_map_of_index(self.pairs@, i as int);
                }
                let ghost before = self.pairs@;
                let pair = self.pairs.remove(i);
                proof {
                    lemma_keymap_remove(before, self.pairs@, i as int, k);
                }
                Some(pair.1)
            },
            None => {
                proof {
                    assert(self.view() =~= self.view().remove(k));
                }
                None
            },
        }
    }

    /// Remove and return some entry of a non-empty map.
    pub fn pop_pair(&mut self) -> (r: Option<(u64, V)>)
        requires
            old(self).wf(),
        ensures
            final(self).wf(),
            match r {
                Some(p) => old(self).view().contains_key(p.0)
                    && old(self).view()[p.0] == p.1
                    && final(self).view() == old(self).view().remove(p.0)
                    && final(self).spec_len() == old(self).spec_len() - 1,
                None => old(self).spec_len() == 0 && final(self).view() == old(self).view()
                    && final(self).spec_len() == 0,
            },
    {
        let ghost before = self.pairs@;
        let popped = self.pairs.pop();
        match popped {
            Some(pair) => {
                proof {
                    assert(self.pairs@ =~= before.drop_last());
                    lemma_map_of_index(before, before.len() - 1);
                    lemma_map_of_contains(before.drop_last(), pair.0);
                    assert(map_of(before) == map_of(before.drop_last()).insert(pair.0, pair.1));
                    assert(map_of(before.drop_last()) =~= map_of(before).remove(pair.0));
                }
                Some(pair)
            },
            None => None,
        }
    }

    /// The pair stored at position `i` of the backing vector.
    pub fn pair_at(&self, i: usize) -> (r: (u64, V))
        requires
            self.wf(),
            i < self.spec_len(),
        ensures
            r == self.pairs@[i as int],
            self.view().contains_key(r.0),
            self.view()[r.0] == r.1,
    {
        proof {
            lemma_map_of_index(self.pairs@, i as int);
        }
        self.pairs[i]
    }
}

/// Replacing the pair at a position of a distinct-key sequence by a pair with
/// the same key updates the map at that key alone.
proof fn lemma_keymap_update<V>(before: Seq<(u64, V)>, after: Seq<(u64, V)>, i: int, k: u64, v: V)
    requires
        distinct_keys(before),
        0 <= i < before.len(),
        before[i].0 == k,
        after == before.update(i, (k, v)),
    ensures
        distinct_keys(after),
        map_of(after) == map_of(before).insert(k, v),
    decreases before.len(),
{
    if i == before.len() - 1 {
        assert(after.drop_last() =~= before.drop_last());
        assert(map_of(after) =~= map_of(before).insert(k, v));
    } else {
        assert(after.last() == before.last());
        assert(after.drop_last() =~= before.drop_last().update(i, (k, v)));
        lemma_keymap_update(before.drop_last(), after.drop_last(), i, k, v);
        assert(before.last().0 != k);
        assert(map_of(after) =~= map_of(before).insert(k, v));
    }
}

/// Removing the pair at a position of a distinct-key sequence removes exactly
/// that key from the map.
proof fn lemma_keymap_remove<V>(before: Seq<(u64, V)>, after: Seq<(u64, V)>, i: int, k: u64)
    requires
        distinct_keys(before),
        0 <= i < before.len(),
        before[i].0 == k,
        after == before.remove(i),
    ensures
        distinct_keys(after),
        map_of(after) == map_of(before).remove(k),
    decreases before.len(),
{
    if i == before.len() - 1 {
        assert(after =~= before.drop_last());
        lemma_map_of_contains(before.drop_last(), k);
        assert(map_of(after) =~= map_of(before).remove(k));
    } else {
        assert(after.last() == before.last());
        assert(after.drop_last() =~= before.drop_last().remove(i));
        lemma_keymap_remove(before.drop_last(), after.drop_last(), i, k);
        assert(before.last().0 != k);
        assert(map_of(after) =~= map_of(before).remove(k));
    }
}

} // verus!
