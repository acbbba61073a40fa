//! Small keyed collections over strings: a set and a counter.
use vstd::prelude::*;

use crate::ordered_map::{has_key, insert_entry, key_pos, lemma_key_pos, lookup, first_key_at};
use crate::strings::str_eq;

verus! {

/// A set of strings, in insertion order.
#[derive(Debug)]
pub struct StrSet {
    items: Vec<String>,
}

impl View for StrSet {
    type V = Seq<Seq<char>>;

    closed spec fn view(&self) -> Seq<Seq<char>> {
        self.items@.map_values(|s: String| s@)
    }
}

impl StrSet {
    /// Whether `k` is in the set.
    pub open spec fn has(&self, k: Seq<char>) -> bool {
        self@.contains(k)
    }

    /// An empty set.
    pub fn new() -> (r: StrSet)
        ensures
            r@ == Seq::<Seq<char>>::empty(),
    {
        let r = StrSet { items: Vec::new() };
        assert(r@ =~= Seq::<Seq<char>>::empty());
        r
    }

    /// Whether `k` is in the set.
    pub fn contains(&self, k: &str) -> (r: bool)
        ensures
            r == self.has(k@),
    {
        let n = self.items.len();
        let mut i: usize = 0;
        while i < n
            invariant
                n == self.items@.len(),
                n == self@.len(),
                i <= n,
                forall|j: int| 0 <= j < i ==> self@[j] != k@,
            decreases n - i,
        {
            if str_eq(self.items[i].as_str(), k) {
                assert(self@[i as int] == k@);
                return true;
            }
            i += 1;
        }
        false
    }

    /// Adds `k`; returns whether it was new.
    pub fn insert(&mut self, k: String) -> (r: bool)
        ensures
            r == !old(self).has(k@),
            final(self)@ == if r {
                old(self)@.push(k@)
            } else {
                old(self)@
            },
    {
        if self.contains(k.as_str()) {
            false
        } else {
            let ghost kv = k@;
            self.items.push(k);
            assert(self@ =~= old(self)@.push(kv));
            true
        }
    }
}

/// A count per string key, in first-seen order.
#[derive(Debug)]
pub struct CountMap {
    entries: Vec<(String, u32)>,
}

impl View for CountMap {
    type V = Seq<(Seq<char>, u32)>;

    closed spec fn view(&self) -> Seq<(Seq<char>, u32)> {
        self.entries@.map_values(|p: (String, u32)| (p.0@, p.1))
    }
}

/// The count after one more occurrence of `k`, saturating at `u32::MAX`.
pub open spec fn bump(e: Seq<(Seq<char>, u32)>, k: Seq<char>) -> Seq<(Seq<char>, u32)> {
    match lookup(e, k) {
        Some(n) => insert_entry(e, k, if n < u32::MAX { (n + 1) as u32 } else { n }),
        None => insert_entry(e, k, 1u32),
    }
}

impl CountMap {
    /// An empty counter.
    pub fn new() -> (r: CountMap)
        ensures
            r@ == Seq::<(Seq<char>, u32)>::empty(),
    {
        let r = CountMap { entries: Vec::new() };
        assert(r@ =~= Seq::<(Seq<char>, u32)>::empty());
        r
    }

    fn position(&self, k: &str) -> (r: Option<usize>)
        ensures
            match r {
                Some(i) => has_key(self@, k@) && i == key_pos(self@, k@) && i < self@.len(),
                None => !has_key(self@, k@),
            },
    {
        let n = self.entries.len();
        let mut i: usize = 0;
        while i < n
            invariant
                n == self@.len(),
                n == self.entries@.len(),
                i <= n,
                forall|j: int| 0 <= j < i ==> (#[trigger] self@[j]).0 != k@,
            decreases n - i,
        {
            if str_eq(self.entries[i].0.as_str(), k) {
                proof {
                    assert(self@[i as int].0 == k@);
                    assert(first_key_at(self@, k@, i as int));
                    lemma_key_pos(self@, k@);
                    let p = key_pos(self@, k@);
                    if p < i {
                        assert(self@[p].0 != k@);
                    }
                    if p > i {
                        assert(self@[i as int].0 != k@);
                    }
                }
                return Some(i);
            }
            i += 1;
        }
        None
    }

    /// The count for `k`, if it was ever counted.
    pub fn get(&self, k: &str) -> (r: Option<u32>)
        ensures
            r == lookup(self@, k@),
    {
        match self.position(k) {
            Some(i) => Some(self.entries[i].1),
            None => None,
        }
    }

    /// Counts one more occurrence of `k`.
    pub fn add_one(&mut self, k: String)
        ensures
            final(self)@ == bump(old(self)@, k@),
    {
        match self.position(k.as_str()) {
            Some(i) => {
                let n = self.entries[i].1;
                let m = if n < u32::MAX {
                    n + 1
                } else {
                    n
                };
                let ghost kv = k@;
                self.entries.set(i, (k, m));
                assert(self@ =~= old(self)@.update(i as int, (kv, m)));
            },
            None => {
                let ghost kv = k@;
                self.entries.push((k, 1));
                assert(self@ =~= old(self)@.push((kv, 1u32)));
            },
        }
    }
}

} // verus!
