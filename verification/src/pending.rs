//! The set of targets that still wait for an answer, kept as an ordered set
//! of keys so that it can be searched quickly and handed out in ascending
//! order.

use std::collections::BTreeSet;
use vstd::prelude::*;
use vstd::std_specs::btree::increasing_seq;
use vstd::std_specs::cmp::OrdSpec;
use vstd::std_specs::iter::IteratorSpec;

verus! {

/// Whether every element of `s` is smaller than all that follow it.
pub open spec fn ascending(s: Seq<u64>) -> bool {
    forall|i: int, j: int| 0 <= i < j < s.len() ==> s[i] < s[j]
}

/// Appending an element that a duplicate-free list lacks leaves it
/// duplicate-free, and adds that element and no other.
pub proof fn lemma_push_fresh<T>(s: Seq<T>, x: T)
    requires
        s.no_duplicates(),
        !s.contains(x),
    ensures
        s.push(x).no_duplicates(),
        forall|y: T| s.push(x).contains(y) <==> s.contains(y) || y == x,
{
    let t = s.push(x);
    assert forall|y: T| t.contains(y) <==> s.contains(y) || y == x by {
        if s.contains(y) {
            let i = choose|i: int| 0 <= i < s.len() && s[i] == y;
            assert(t[i] == y);
        }
        if y == x {
            assert(t[s.len() as int] == y);
        }
    }
    assert forall|i: int, j: int| 0 <= i < t.len() && 0 <= j < t.len() && i != j implies t[i]
        != t[j] by {
        if i < s.len() {
            assert(s.contains(s[i]));
        }
        if j < s.len() {
            assert(s.contains(s[j]));
        }
    }
}

/// A set of 64-bit keys.
pub struct PendingSet {
    keys: BTreeSet<u64>,
}

impl View for PendingSet {
    type V = Set<u64>;

    /// The keys that the set holds.
    closed spec fn view(&self) -> Set<u64> {
        self.keys@
    }
}

impl PendingSet {
    /// The empty set.
    pub fn new() -> (set: PendingSet)
        ensures
            set@ == Set::<u64>::empty(),
    {
        PendingSet { keys: BTreeSet::new() }
    }

    /// The number of keys in the set.
    pub fn len(&self) -> (n: usize)
        ensures
            n == self@.len(),
    {
        self.keys.len()
    }

    /// Whether `key` is in the set.
    pub fn contains(&self, key: u64) -> (found: bool)
        ensures
            found == self@.contains(key),
    {
        self.keys.contains(&key)
    }

    /// Adds `key` and says whether it was new.
    pub fn insert(&mut self, key: u64) -> (added: bool)
        ensures
            final(self)@ == old(self)@.insert(key),
            added == !old(self)@.contains(key),
    {
        self.keys.insert(key)
    }

    /// Takes `key` out and says whether it was there.
    pub fn remove(&mut self, key: u64) -> (removed: bool)
        ensures
            final(self)@ == old(self)@.remove(key),
            removed == old(self)@.contains(key),
    {
        self.keys.remove(&key)
    }

    /// The set that holds exactly the elements of `list`.
    pub fn from_keys(list: &Vec<u64>) -> (set: PendingSet)
        ensures
            set@ == list@.to_set(),
    {
        let mut set = PendingSet::new();
        let mut i: usize = 0;
        assert(list@.subrange(0, 0).to_set() =~= Set::<u64>::empty());
        while i < list.len()
            invariant
                i <= list@.len(),
                set@ == list@.subrange(0, i as int).to_set(),
            decreases list@.len() - i,
        {
            let ghost seen = list@.subrange(0, i as int);
            set.insert(list[i]);
            proof {
                let next = list@.subrange(0, i + 1);
                assert(next =~= seen.push(list@[i as int]));
                assert forall|k: u64| next.to_set().contains(k) <==> seen.to_set().insert(
                    list@[i as int],
                ).contains(k) by {
                    if seen.contains(k) {
                        let j = choose|j: int| 0 <= j < seen.len() && seen[j] == k;
                        assert(next[j] == k);
                    }
                    if k == list@[i as int] {
                        assert(next[i as int] == k);
                    }
                    if next.contains(k) {
                        let j = choose|j: int| 0 <= j < next.len() && next[j] == k;
                        if j < i {
                            assert(seen[j] == k);
                        }
                    }
                }
                assert(next.to_set() =~= seen.to_set().insert(list@[i as int]));
            }
            i += 1;
        }
        assert(list@.subrange(0, i as int) =~= list@);
        set
    }

    /// Hands out the keys in ascending order, each once.
    pub fn into_keys(self) -> (keys: Vec<u64>)
        ensures
            ascending(keys@),
            keys@.to_set() == self@,
            keys@.len() == self@.len(),
    {
        let mut keys: Vec<u64> = Vec::new();
        let ghost all = self.keys.iter().remaining();
        for key in it: self.keys.iter()
            invariant
                it.seq() == all,
                keys@.len() == it.index(),
                forall|i: int| 0 <= i < keys@.len() ==> keys@[i] == *it.seq()[i],
        {
            keys.push(*key);
        }
        proof {
            assert(keys@ =~= all.unref());
            assert(increasing_seq(all));
            assert(vstd::laws_cmp::obeys_cmp::<u64>());
            assert(vstd::laws_cmp::obeys_cmp::<&u64>());
            assert forall|i: int, j: int| 0 <= i < j < keys@.len() implies keys@[i]
                < keys@[j] by {
                assert(OrdSpec::cmp_spec(&all[i], &all[j]) is Less);
            }
        }
        keys
    }
}

} // verus!
