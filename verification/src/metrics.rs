use vstd::prelude::*;

pub mod amap;
pub mod cmap;

verus! {

/// Reported when a counter operation cannot be carried out.
#[derive(Debug, Clone, Copy, PartialEq, Eq, Structural)]
pub enum MetricsError {
    /// The key is not one the store was created with.
    KeyNotFound,
}

/// The mapping a key/counter entry list denotes; a later entry for the
/// same key overrides an earlier one.
pub open spec fn entries_map(s: Seq<(String, i64)>) -> Map<Seq<char>, i64>
    decreases s.len(),
{
    if s.len() == 0 {
        Map::empty()
    } else {
        entries_map(s.drop_last()).insert(s.last().0@, s.last().1)
    }
}

/// No two entries share a key.
pub open spec fn unique_keys(s: Seq<(String, i64)>) -> bool {
    forall|p: int, q: int| 0 <= p < q < s.len() ==> (#[trigger] s[p]).0@ != (#[trigger] s[q]).0@
}

/// The counter for `k`: zero until the first increment or decrement.
pub open spec fn counter_of(m: Map<Seq<char>, i64>, k: Seq<char>) -> i64 {
    if m.contains_key(k) {
        m[k]
    } else {
        0i64
    }
}

/// `v` moved one step up, stopping at the `i64` maximum.
pub open spec fn bump_up(v: i64) -> i64 {
    if v == i64::MAX {
        v
    } else {
        (v + 1) as i64
    }
}

/// `v` moved one step down, stopping at the `i64` minimum.
pub open spec fn bump_down(v: i64) -> i64 {
    if v == i64::MIN {
        v
    } else {
        (v - 1) as i64
    }
}

/// Appending an entry denotes inserting its key.
pub proof fn lemma_entries_push(s: Seq<(String, i64)>, e: (String, i64))
    ensures
        entries_map(s.push(e)) == entries_map(s).insert(e.0@, e.1),
{
    assert(s.push(e).drop_last() =~= s);
    assert(s.push(e).last() == e);
}

/// In a unique-keyed list, entry `i` gives the denoted value of its key.
pub proof fn lemma_entries_get(s: Seq<(String, i64)>, i: int)
    requires
        unique_keys(s),
        0 <= i < s.len(),
    ensures
        entries_map(s).contains_key(s[i].0@),
        entries_map(s)[s[i].0@] == s[i].1,
    decreases s.len(),
{
    if i == s.len() - 1 {
    } else {
        assert(unique_keys(s.drop_last()));
        lemma_entries_get(s.drop_last(), i);
        assert(s.drop_last()[i] == s[i]);
        assert(s[i].0@ != s[s.len() - 1].0@);
    }
}

/// A key carried by no entry is absent from the denoted map.
pub proof fn lemma_entries_absent(s: Seq<(String, i64)>, k: Seq<char>)
    requires
        forall|i: int| 0 <= i < s.len() ==> (#[trigger] s[i]).0@ != k,
    ensures
        !entries_map(s).contains_key(k),
    decreases s.len(),
{
    if s.len() > 0 {
        assert(forall|i: int|
            0 <= i < s.len() - 1 ==> (#[trigger] s.drop_last()[i]).0@ != k);
        lemma_entries_absent(s.drop_last(), k);
    }
}

/// Replacing entry `i` by one with the same key denotes inserting the new
/// value at that key.
pub proof fn lemma_entries_update(s: Seq<(String, i64)>, i: int, e: (String, i64))
    requires
        unique_keys(s),
        0 <= i < s.len(),
        e.0@ == s[i].0@,
    ensures
        entries_map(s.update(i, e)) == entries_map(s).insert(e.0@, e.1),
    decreases s.len(),
{
    if i == s.len() - 1 {
        assert(s.update(i, e).drop_last() =~= s.drop_last());
        assert(s.update(i, e).last() == e);
        assert(entries_map(s.drop_last()).insert(s.last().0@, s.last().1).insert(e.0@, e.1)
            =~= entries_map(s.drop_last()).insert(e.0@, e.1));
    } else {
        assert(unique_keys(s.drop_last()));
        assert(s.drop_last()[i] == s[i]);
        lemma_entries_update(s.drop_last(), i, e);
        assert(s.update(i, e).drop_last() =~= s.drop_last().update(i, e));
        assert(s.update(i, e).last() == s.last());
        assert(s[i].0@ != s[s.len() - 1].0@);
        assert(entries_map(s.drop_last()).insert(e.0@, e.1).insert(s.last().0@, s.last().1)
            =~= entries_map(s.drop_last()).insert(s.last().0@, s.last().1).insert(e.0@, e.1));
    }
}

/// A key -> counter store. Counters spring into being at zero on first
/// use; increments and decrements saturate at the `i64` range ends. A
/// snapshot hands back the whole mapping.
#[derive(Debug, Clone)]
pub struct Metrics {
    entries: Vec<(String, i64)>,
}

impl View for Metrics {
    type V = Map<Seq<char>, i64>;

    closed spec fn view(&self) -> Map<Seq<char>, i64> {
        entries_map(self.entries@)
    }
}

impl Metrics {
    /// The store keeps one entry per key.
    pub closed spec fn wf(&self) -> bool {
        unique_keys(self.entries@)
    }

    /// An empty store: every counter reads zero.
    pub fn new() -> (r: Metrics)
        ensures
            r@ == Map::<Seq<char>, i64>::empty(),
            r.wf(),
    {
        Metrics { entries: Vec::new() }
    }

    fn find(&self, key: &String) -> (r: Option<usize>)
        ensures
            match r {
                Some(i) => i < self.entries@.len() && self.entries@[i as int].0@ == key@,
                None => forall|i: int|
                    0 <= i < self.entries@.len() ==> (#[trigger] self.entries@[i]).0@ != key@,
            },
    {
        let mut i: usize = 0;
        let n = self.entries.len();
        while i < n
            invariant
                n == self.entries@.len(),
                i <= n,
                forall|k: int| 0 <= k < i ==> (#[trigger] self.entries@[k]).0@ != key@,
            decreases n - i,
        {
            if self.entries[i].0 == *key {
                return Some(i);
            }
            i += 1;
        }
        None
    }

    /// Adds one to `key`'s counter, creating it first at zero if absent
    /// and stopping at the `i64` maximum. Never fails.
    pub fn inc(&mut self, key: String) -> (r: Result<(), MetricsError>)
        requires
            old(self).wf(),
        ensures
            final(self).wf(),
            r is Ok,
            final(self)@ == old(self)@.insert(key@, bump_up(counter_of(old(self)@, key@))),
    {
        match self.find(&key) {
            Some(i) => {
                let cur = self.entries[i].1;
                let next = if cur == i64::MAX {
                    cur
                } else {
                    cur + 1
                };
                proof {
                    lemma_entries_get(self.entries@, i as int);
                }
                let ghost s0 = self.entries@;
                self.entries[i] = (key, next);
                proof {
                    lemma_entries_update(s0, i as int, self.entries@[i as int]);
                    assert(unique_keys(self.entries@));
                }
                Ok(())
            },
            None => {
                proof {
                    lemma_entries_absent(self.entries@, key@);
                    lemma_entries_push(self.entries@, (key, 1i64));
                }
                let ghost s0 = self.entries@;
                self.entries.push((key, 1i64));
                proof {
                    assert forall|p: int, q: int|
                        0 <= p < q < self.entries@.len() implies (#[trigger] self.entries@[p]).0@
                        != (#[trigger] self.entries@[q]).0@ by {
                        if q == self.entries@.len() - 1 {
                            assert(self.entries@[p] == s0[p]);
                        } else {
                            assert(self.entries@[p] == s0[p]);
                            assert(self.entries@[q] == s0[q]);
                        }
                    }
                }
                Ok(())
            },
        }
    }

    /// Takes one from `key`'s counter, creating it first at zero if absent
    /// and stopping at the `i64` minimum. Never fails.
    pub fn dec(&mut self, key: String) -> (r: Result<(), MetricsError>)
        requires
            old(self).wf(),
        ensures
            final(self).wf(),
            r is Ok,
            final(self)@ == old(self)@.insert(key@, bump_down(counter_of(old(self)@, key@))),
    {
        match self.find(&key) {
            Some(i) => {
                let cur = self.entries[i].1;
                let next = if cur == i64::MIN {
                    cur
                } else {
                    cur - 1
                };
                proof {
                    lemma_entries_get(self.entries@, i as int);
                }
                let ghost s0 = self.entries@;
                self.entries[i] = (key, next);
                proof {
                    lemma_entries_update(s0, i as int, self.entries@[i as int]);
                    assert(unique_keys(self.entries@));
                }
                Ok(())
            },
            None => {
                proof {
                    lemma_entries_absent(self.entries@, key@);
                    lemma_entries_push(self.entries@, (key, -1i64));
                }
                let ghost s0 = self.entries@;
                self.entries.push((key, -1i64));
                proof {
                    assert forall|p: int, q: int|
                        0 <= p < q < self.entries@.len() implies (#[trigger] self.entries@[p]).0@
                        != (#[trigger] self.entries@[q]).0@ by {
                        if q == self.entries@.len() - 1 {
                            assert(self.entries@[p] == s0[p]);
                        } else {
                            assert(self.entries@[p] == s0[p]);
                            assert(self.entries@[q] == s0[q]);
                        }
                    }
                }
                Ok(())
            },
        }
    }

    /// A copy of the current mapping, as key/counter pairs with one entry
    /// per key. Never fails.
    pub fn snapshot(&self) -> (r: Result<Vec<(String, i64)>, MetricsError>)
        requires
            self.wf(),
        ensures
            r matches Ok(v) && entries_map(v@) == self@ && unique_keys(v@),
    {
        let mut out: Vec<(String, i64)> = Vec::new();
        let mut i: usize = 0;
        let n = self.entries.len();
        while i < n
            invariant
                n == self.entries@.len(),
                i <= n,
                out@.len() == i,
                forall|k: int| 0 <= k < i ==> out@[k] == self.entries@[k],
            decreases n - i,
        {
            let key = self.entries[i].0.clone();
            let val = self.entries[i].1;
            out.push((key, val));
            i += 1;
        }
        proof {
            assert(out@ =~= self.entries@);
        }
        Ok(out)
    }
}

impl Default for Metrics {
    /// The default store is empty.
    fn default() -> (r: Metrics)
        ensures
            r@ == Map::<Seq<char>, i64>::empty(),
            r.wf(),
    {
        Metrics::new()
    }
}

} // verus!
