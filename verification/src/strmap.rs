//! A string-to-string map, kept as a list of entries in which the last
//! entry for a key is the one that counts.
use vstd::prelude::*;

verus! {

/// The value that the last entry for `k` in `entries` gives it.
pub open spec fn spec_lookup(entries: Seq<(String, String)>, k: Seq<char>) -> Option<Seq<char>>
    decreases entries.len(),
{
    if entries.len() == 0 {
        None
    } else if entries.last().0@ == k {
        Some(entries.last().1@)
    } else {
        spec_lookup(entries.drop_last(), k)
    }
}

/// A map from strings to strings.
#[derive(Debug)]
pub struct StrMap {
    /// Entries in insertion order; the last entry for a key wins.
    pub entries: Vec<(String, String)>,
}

impl StrMap {
    /// The value stored for `k`, if any.
    pub open spec fn lookup(&self, k: Seq<char>) -> Option<Seq<char>> {
        spec_lookup(self.entries@, k)
    }

    /// The map as a mathematical map.
    pub open spec fn as_map(&self) -> Map<Seq<char>, Seq<char>> {
        Map::new(|k: Seq<char>| self.lookup(k) is Some, |k: Seq<char>| self.lookup(k).unwrap())
    }

    /// An empty map.
    pub fn new() -> (m: StrMap)
        ensures
            forall|k: Seq<char>| m.lookup(k) is None,
    {
        StrMap { entries: Vec::new() }
    }

    /// The value stored for `k`, if any.
    pub fn get(&self, k: &String) -> (r: Option<String>)
        ensures
            match r {
                Some(v) => self.lookup(k@) == Some(v@),
                None => self.lookup(k@) is None,
            },
    {
        let mut i = self.entries.len();
        assert(self.entries@.take(i as int) == self.entries@);
        while i > 0
            invariant
                i <= self.entries@.len(),
                spec_lookup(self.entries@, k@) == spec_lookup(self.entries@.take(i as int), k@),
            decreases i,
        {
            let ghost pre = self.entries@.take(i as int);
            assert(pre.drop_last() == self.entries@.take(i - 1));
            if self.entries[i - 1].0 == *k {
                return Some(self.entries[i - 1].1.clone());
            }
            i = i - 1;
        }
        None
    }

    /// Removes every entry for `k`.
    pub fn remove(&mut self, k: &String)
        ensures
            forall|q: Seq<char>| #[trigger]
                final(self).lookup(q) == if q == k@ {
                    None
                } else {
                    old(self).lookup(q)
                },
    {
        let ghost old_entries = self.entries@;
        let mut kept: Vec<(String, String)> = Vec::new();
        let mut i: usize = 0;
        while i < self.entries.len()
            invariant
                i <= self.entries@.len(),
                self.entries@ == old_entries,
                forall|q: Seq<char>| #[trigger]
                    spec_lookup(kept@, q) == if q == k@ {
                        None
                    } else {
                        spec_lookup(old_entries.take(i as int), q)
                    },
            decreases self.entries@.len() - i,
        {
            let ghost before = kept@;
            let e0 = self.entries[i].0.clone();
            let e1 = self.entries[i].1.clone();
            let is_k = e0 == *k;
            if !is_k {
                kept.push((e0, e1));
            }
            assert(old_entries.take(i + 1).drop_last() == old_entries.take(i as int));
            assert forall|q: Seq<char>| #[trigger]
                spec_lookup(kept@, q) == if q == k@ {
                    None
                } else {
                    spec_lookup(old_entries.take(i + 1), q)
                } by {
                assert(old_entries.take(i + 1).last() == old_entries[i as int]);
                assert(e0@ == old_entries[i as int].0@);
                assert(e1@ == old_entries[i as int].1@);
                assert(is_k == (e0@ == k@));
                let tk = old_entries.take(i + 1);
                assert(spec_lookup(tk, q) == if tk.last().0@ == q {
                    Some(tk.last().1@)
                } else {
                    spec_lookup(tk.drop_last(), q)
                });
                if !is_k {
                    assert(kept@.drop_last() == before);
                    assert(kept@.last() == (e0, e1));
                    assert(spec_lookup(before, q) == if q == k@ {
                        None
                    } else {
                        spec_lookup(old_entries.take(i as int), q)
                    });
                } else {
                    assert(kept@ == before);
                }
            }
            i = i + 1;
        }
        assert(old_entries.take(old_entries.len() as int) == old_entries);
        self.entries = kept;
    }

    /// Stores `v` for `k`, replacing what was stored for `k`.
    pub fn insert(&mut self, k: String, v: String)
        ensures
            forall|q: Seq<char>| #[trigger]
                final(self).lookup(q) == if q == k@ {
                    Some(v@)
                } else {
                    old(self).lookup(q)
                },
    {
        self.remove(&k);
        let ghost mid = self.entries@;
        let ghost removed = *self;
        assert(forall|q: Seq<char>| removed.lookup(q) == spec_lookup(mid, q));
        let ghost kv = k@;
        let ghost vv = v@;
        self.entries.push((k, v));
        assert(self.entries@.drop_last() == mid);
        assert(self.entries@.last().0@ == kv);
        assert(self.entries@.last().1@ == vv);
        assert forall|q: Seq<char>| #[trigger]
            self.lookup(q) == if q == kv {
                Some(vv)
            } else {
                old(self).lookup(q)
            } by {
            assert(removed.lookup(q) == spec_lookup(mid, q));
        }
    }
}

} // verus!

verus! {

/// A key has a value exactly when some entry holds it.
pub proof fn lemma_lookup_some(entries: Seq<(String, String)>, k: Seq<char>)
    ensures
        spec_lookup(entries, k) is Some <==> exists|i: int|
            0 <= i < entries.len() && (#[trigger] entries[i]).0@ == k,
    decreases entries.len(),
{
    if entries.len() > 0 {
        lemma_lookup_some(entries.drop_last(), k);
        if spec_lookup(entries, k) is Some {
            if entries.last().0@ == k {
                assert(entries[entries.len() - 1].0@ == k);
            } else {
                let i = choose|i: int|
                    0 <= i < entries.drop_last().len() && (#[trigger] entries.drop_last()[i]).0@
                        == k;
                assert(entries[i] == entries.drop_last()[i]);
            }
        } else {
            assert forall|i: int| 0 <= i < entries.len() implies (
            #[trigger] entries[i]).0@ != k by {
                if i < entries.len() - 1 {
                    assert(entries[i] == entries.drop_last()[i]);
                }
            }
        }
    }
}

} // verus!
