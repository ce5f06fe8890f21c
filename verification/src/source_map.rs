//! A table keyed by source id and kept in ascending key order, so every walk
//! over it is deterministic.

use vstd::prelude::*;

verus! {

/// A map from source ids to values, sorted by id.
#[derive(Debug)]
pub struct SourceMap<V> {
    pub entries: Vec<(i64, V)>,
}

/// Whether some entry has this key.
pub open spec fn has_key<V>(s: Seq<(i64, V)>, k: i64) -> bool {
    exists|i: int| 0 <= i < s.len() && #[trigger] s[i].0 == k
}

/// The position of a key that is present.
pub open spec fn key_index<V>(s: Seq<(i64, V)>, k: i64) -> int {
    choose|i: int| 0 <= i < s.len() && #[trigger] s[i].0 == k
}

pub open spec fn ascending<V>(s: Seq<(i64, V)>) -> bool {
    forall|i: int, j: int| 0 <= i < j < s.len() ==> (#[trigger] s[i]).0 < (#[trigger] s[j]).0
}

/// The map that a list of entries stands for.
pub open spec fn entry_map<V>(s: Seq<(i64, V)>) -> Map<i64, V> {
    Map::new(|k: i64| has_key(s, k), |k: i64| s[key_index(s, k)].1)
}

impl<V> View for SourceMap<V> {
    type V = Map<i64, V>;

    open spec fn view(&self) -> Map<i64, V> {
        entry_map(self.entries@)
    }
}

/// An entry of a sorted list is what the map holds under its key.
pub proof fn lemma_entry<V>(s: Seq<(i64, V)>, i: int)
    requires
        ascending(s),
        0 <= i < s.len(),
    ensures
        entry_map(s).dom().contains(s[i].0),
        entry_map(s)[s[i].0] == s[i].1,
        key_index(s, s[i].0) == i,
{
    let k = s[i].0;
    assert(has_key(s, k));
    let j = key_index(s, k);
    if j < i {
        assert(s[j].0 < s[i].0);
    } else if i < j {
        assert(s[i].0 < s[j].0);
    }
}

/// The map has one key per entry.
pub proof fn lemma_len<V>(s: Seq<(i64, V)>)
    requires
        ascending(s),
    ensures
        entry_map(s).dom().finite(),
        entry_map(s).dom().len() == s.len(),
    decreases s.len(),
{
    if s.len() == 0 {
        assert(entry_map(s).dom() =~= Set::empty());
    } else {
        let t = s.drop_last();
        let k = s.last().0;
        lemma_len(t);
        assert(entry_map(s).dom() =~= entry_map(t).dom().insert(k)) by {
            assert forall|x: i64| entry_map(s).dom().contains(x) implies entry_map(t).dom().insert(
                k,
            ).contains(x) by {
                let i = key_index(s, x);
                if i < t.len() {
                    assert(t[i].0 == x);
                }
            }
            assert forall|x: i64| entry_map(t).dom().insert(k).contains(x) implies entry_map(
                s,
            ).dom().contains(x) by {
                if x == k {
                    assert(s[s.len() - 1].0 == k);
                } else {
                    let i = key_index(t, x);
                    assert(s[i].0 == x);
                }
            }
        }
        assert(!entry_map(t).dom().contains(k)) by {
            if has_key(t, k) {
                let i = key_index(t, k);
                assert(s[i].0 < s[s.len() - 1].0);
            }
        }
    }
}

/// Two sorted lists that stand for the same map are the same list.
pub proof fn lemma_same_map<V>(s: Seq<(i64, V)>, t: Seq<(i64, V)>)
    requires
        ascending(s),
        ascending(t),
        entry_map(s) == entry_map(t),
    ensures
        s == t,
    decreases s.len(),
{
    lemma_len(s);
    lemma_len(t);
    if s.len() > 0 {
        let k = s.last().0;
        lemma_entry(s, s.len() - 1);
        lemma_entry(t, t.len() - 1);
        let i = key_index(s, t.last().0);
        let j = key_index(t, k);
        assert(s[i].0 == t.last().0);
        assert(t[j].0 == k);
        if i < s.len() - 1 {
            assert(s[i].0 < s[s.len() - 1].0);
            if j < t.len() - 1 {
                assert(t[j].0 < t[t.len() - 1].0);
            }
        }
        assert(t.last().0 == k);
        assert(s.last() == t.last());
        let a = s.drop_last();
        let b = t.drop_last();
        assert(entry_map(a) =~= entry_map(b)) by {
            assert forall|x: i64| has_key(a, x) == has_key(b, x) by {
                if has_key(a, x) {
                    let p = key_index(a, x);
                    assert(s[p].0 == x && s[p].0 < s[s.len() - 1].0);
                    assert(has_key(s, x));
                    assert(entry_map(t).dom().contains(x));
                    let q = key_index(t, x);
                    assert(t[q].0 == x);
                    assert(b[q].0 == x);
                }
                if has_key(b, x) {
                    let p = key_index(b, x);
                    assert(t[p].0 == x && t[p].0 < t[t.len() - 1].0);
                    assert(has_key(t, x));
                    assert(entry_map(s).dom().contains(x));
                    let q = key_index(s, x);
                    assert(s[q].0 == x);
                    assert(a[q].0 == x);
                }
            }
            assert forall|x: i64| has_key(a, x) implies a[key_index(a, x)].1 == b[key_index(
                b,
                x,
            )].1 by {
                let p = key_index(a, x);
                let q = key_index(b, x);
                lemma_entry(s, p);
                lemma_entry(t, q);
            }
        }
        lemma_same_map(a, b);
        assert(s =~= a.push(s.last()));
        assert(t =~= b.push(t.last()));
    } else {
        assert(s =~= t);
    }
}

impl<V> SourceMap<V> {
    pub open spec fn wf(&self) -> bool {
        ascending(self.entries@)
    }

    pub fn new() -> (r: Self)
        ensures
            r.wf(),
            r@ == Map::<i64, V>::empty(),
            r.entries@.len() == 0,
    {
        let r = SourceMap { entries: Vec::new() };
        assert(r@ =~= Map::empty());
        r
    }

    /// The first position whose key is not below `k`.
    pub fn lower_bound(&self, k: i64) -> (i: usize)
        requires
            self.wf(),
        ensures
            i <= self.entries.len(),
            forall|j: int| 0 <= j < i ==> (#[trigger] self.entries@[j]).0 < k,
            forall|j: int| i <= j < self.entries.len() ==> (#[trigger] self.entries@[j]).0 >= k,
    {
        let mut i: usize = 0;
        while i < self.entries.len() && self.entries[i].0 < k
            invariant
                0 <= i <= self.entries.len(),
                self.wf(),
                forall|j: int| 0 <= j < i ==> (#[trigger] self.entries@[j]).0 < k,
            decreases self.entries.len() - i,
        {
            i += 1;
        }
        assert forall|j: int| i <= j < self.entries.len() implies (#[trigger] self.entries@[j]).0
            >= k by {
            if i < j {
                assert(self.entries@[i as int].0 < self.entries@[j].0);
            }
        }
        i
    }

    pub fn contains(&self, k: i64) -> (r: bool)
        requires
            self.wf(),
        ensures
            r == self@.dom().contains(k),
    {
        let i = self.lower_bound(k);
        i < self.entries.len() && self.entries[i].0 == k
    }

    pub fn get(&self, k: i64) -> (r: Option<&V>)
        requires
            self.wf(),
        ensures
            match r {
                Some(v) => self@.dom().contains(k) && *v == self@[k],
                None => !self@.dom().contains(k),
            },
    {
        let i = self.lower_bound(k);
        if i < self.entries.len() && self.entries[i].0 == k {
            proof {
                lemma_entry(self.entries@, i as int);
            }
            Some(&self.entries[i].1)
        } else {
            None
        }
    }

    /// Add an entry, replacing the one with the same key.
    pub fn insert(&mut self, k: i64, v: V)
        requires
            old(self).wf(),
        ensures
            final(self).wf(),
            final(self)@ == old(self)@.insert(k, v),
    {
        let i = self.lower_bound(k);
        let ghost before = self.entries@;
        if i < self.entries.len() && self.entries[i].0 == k {
            self.entries.set(i, (k, v));
            let ghost after = self.entries@;
            assert(ascending(after));
            assert(entry_map(after) =~= entry_map(before).insert(k, v)) by {
                assert forall|x: i64| has_key(after, x) == has_key(before, x) by {
                    if has_key(after, x) {
                        let p = key_index(after, x);
                        assert(before[p].0 == x);
                    }
                    if has_key(before, x) {
                        let p = key_index(before, x);
                        assert(after[p].0 == x);
                    }
                }
                lemma_entry(after, i as int);
                assert forall|x: i64| has_key(before, x) && x != k implies entry_map(after)[x]
                    == entry_map(before)[x] by {
                    let p = key_index(before, x);
                    assert(after[p] == before[p]);
                    lemma_entry(after, p);
                }
            }
        } else {
            self.entries.insert(i, (k, v));
            let ghost after = self.entries@;
            assert(after =~= before.insert(i as int, (k, v)));
            assert(ascending(after)) by {
                assert forall|a: int, b: int| 0 <= a < b < after.len() implies (#[trigger] after[a]).0
                    < (#[trigger] after[b]).0 by {
                    if a < i && b > i {
                        assert(before[a].0 < before[b - 1].0);
                    } else if a > i {
                        assert(before[a - 1].0 < before[b - 1].0);
                    } else if b < i {
                        assert(before[a].0 < before[b].0);
                    } else if a == i {
                        assert(before[b - 1].0 >= k);
                        if before[b - 1].0 == k {
                            if b - 1 > i {
                                assert(before[i as int].0 < before[b - 1].0);
                            }
                        }
                    }
                }
            }
            assert(entry_map(after) =~= entry_map(before).insert(k, v)) by {
                lemma_entry(after, i as int);
                assert forall|x: i64| has_key(after, x) == (has_key(before, x) || x == k) by {
                    if has_key(after, x) {
                        let p = key_index(after, x);
                        if p < i {
                            assert(before[p].0 == x);
                        } else if p > i {
                            assert(before[p - 1].0 == x);
                        }
                    }
                    if has_key(before, x) {
                        let p = key_index(before, x);
                        if p < i {
                            assert(after[p].0 == x);
                        } else {
                            assert(after[p + 1].0 == x);
                        }
                    }
                }
                assert forall|x: i64| has_key(before, x) && x != k implies entry_map(after)[x]
                    == entry_map(before)[x] by {
                    let p = key_index(before, x);
                    if p < i {
                        assert(after[p] == before[p]);
                        lemma_entry(after, p);
                    } else {
                        assert(after[p + 1] == before[p]);
                        lemma_entry(after, p + 1);
                    }
                }
            }
        }
    }

    /// Take an entry out.
    pub fn remove(&mut self, k: i64) -> (r: Option<V>)
        requires
            old(self).wf(),
        ensures
            final(self).wf(),
            final(self)@ == old(self)@.remove(k),
            match r {
                Some(v) => old(self)@.dom().contains(k) && v == old(self)@[k],
                None => !old(self)@.dom().contains(k),
            },
    {
        let i = self.lower_bound(k);
        let ghost before = self.entries@;
        if i < self.entries.len() && self.entries[i].0 == k {
            proof {
                lemma_entry(before, i as int);
            }
            let taken = self.entries.remove(i);
            let ghost after = self.entries@;
            assert(after =~= before.remove(i as int));
            assert(ascending(after)) by {
                assert forall|a: int, b: int| 0 <= a < b < after.len() implies (#[trigger] after[a]).0
                    < (#[trigger] after[b]).0 by {
                    let p = if a < i {
                        a
                    } else {
                        a + 1
                    };
                    let q = if b < i {
                        b
                    } else {
                        b + 1
                    };
                    assert(before[p].0 < before[q].0);
                }
            }
            assert(entry_map(after) =~= entry_map(before).remove(k)) by {
                assert forall|x: i64| has_key(after, x) == (has_key(before, x) && x != k) by {
                    if has_key(after, x) {
                        let p = key_index(after, x);
                        let q = if p < i {
                            p
                        } else {
                            p + 1
                        };
                        assert(before[q].0 == x);
                        lemma_entry(before, q);
                    }
                    if has_key(before, x) && x != k {
                        let p = key_index(before, x);
                        if p < i {
                            assert(after[p].0 == x);
                        } else {
                            assert(after[p - 1].0 == x);
                        }
                    }
                }
                assert forall|x: i64| has_key(before, x) && x != k implies entry_map(after)[x]
                    == entry_map(before)[x] by {
                    let p = key_index(before, x);
                    if p < i {
                        assert(after[p] == before[p]);
                        lemma_entry(after, p);
                    } else {
                        assert(after[p - 1] == before[p]);
                        lemma_entry(after, p - 1);
                    }
                }
            }
            Some(taken.1)
        } else {
            assert(!self@.dom().contains(k));
            assert(self@.remove(k) =~= self@);
            None
        }
    }
}

} // verus!
