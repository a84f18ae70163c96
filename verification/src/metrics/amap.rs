use vstd::prelude::*;

verus! {

use crate::metrics::{
    bump_up, counter_of, entries_map, lemma_entries_absent, lemma_entries_get,
    lemma_entries_push, lemma_entries_update, unique_keys, MetricsError,
};

/// The mapping that a list of metric names denotes: every name maps to a
/// zero counter.
pub open spec fn names_map(names: Seq<&str>) -> Map<Seq<char>, i64>
    decreases names.len(),
{
    if names.len() == 0 {
        Map::empty()
    } else {
        names_map(names.drop_last()).insert(names.last()@, 0i64)
    }
}

/// A counter store over a key set fixed at construction: incrementing any
/// other key is refused. Counters saturate at the `i64` maximum.
#[derive(Debug, Clone)]
pub struct AmapMetrics {
    entries: Vec<(String, i64)>,
}

impl View for AmapMetrics {
    type V = Map<Seq<char>, i64>;

    closed spec fn view(&self) -> Map<Seq<char>, i64> {
        entries_map(self.entries@)
    }
}

impl AmapMetrics {
    /// The store keeps one entry per key.
    pub closed spec fn wf(&self) -> bool {
        unique_keys(self.entries@)
    }

    /// Creates a store over exactly the given metric names, each counter
    /// starting at zero. A repeated name counts once.
    pub fn new(metric_names: &[&str]) -> (r: AmapMetrics)
        ensures
            r.wf(),
            r@ == names_map(metric_names@),
    {
        let mut entries: Vec<(String, i64)> = Vec::new();
        let mut i: usize = 0;
        let n = metric_names.len();
        while i < n
            invariant
                n == metric_names@.len(),
                i <= n,
                unique_keys(entries@),
                forall|k: int| 0 <= k < entries@.len() ==> (#[trigger] entries@[k]).1 == 0i64,
                entries_map(entries@) == names_map(metric_names@.subrange(0, i as int)),
            decreases n - i,
        {
            let key = metric_names[i].to_owned();
            let mut found = false;
            let mut j: usize = 0;
            let m = entries.len();
            while j < m
                invariant
                    m == entries@.len(),
                    j <= m,
                    found ==> exists|k: int|
                        0 <= k < entries@.len() && (#[trigger] entries@[k]).0@ == key@,
                    !found ==> forall|k: int|
                        0 <= k < j ==> (#[trigger] entries@[k]).0@ != key@,
                decreases m - j,
            {
                if entries[j].0 == key {
                    found = true;
                    proof {
                        assert((entries@[j as int]).0@ == key@);
                    }
                }
                j += 1;
            }
            proof {
                assert(metric_names@.subrange(0, i + 1).drop_last() =~= metric_names@.subrange(
                    0,
                    i as int,
                ));
                assert(metric_names@.subrange(0, i + 1).last() == metric_names@[i as int]);
            }
            if found {
                proof {
                    let k = choose|k: int|
                        0 <= k < entries@.len() && (#[trigger] entries@[k]).0@ == key@;
                    lemma_entries_get(entries@, k);
                    assert(entries_map(entries@).contains_key(key@));
                    assert(entries_map(entries@)[key@] == 0i64);
                    assert(entries_map(entries@).insert(key@, 0i64) =~= entries_map(entries@));
                }
            } else {
                let ghost s0 = entries@;
                entries.push((key, 0i64));
                proof {
                    lemma_entries_push(s0, s0.push((key, 0i64)).last());
                    assert forall|p: int, q: int|
                        0 <= p < q < entries@.len() implies (#[trigger] entries@[p]).0@
                        != (#[trigger] entries@[q]).0@ by {
                        if q == entries@.len() - 1 {
                            assert(entries@[p] == s0[p]);
                        } else {
                            assert(entries@[p] == s0[p]);
                            assert(entries@[q] == s0[q]);
                        }
                    }
                }
            }
            i += 1;
        }
        proof {
            assert(metric_names@.subrange(0, n as int) =~= metric_names@);
        }
        AmapMetrics { entries }
    }

    /// Adds one to `key`'s counter, stopping at the `i64` maximum. Fails
    /// with `KeyNotFound`, leaving the store unchanged, exactly when the
    /// store was created without `key`.
    pub fn inc(&mut self, key: &str) -> (r: Result<(), MetricsError>)
        requires
            old(self).wf(),
        ensures
            final(self).wf(),
            old(self)@.contains_key(key@) ==> r is Ok && final(self)@ == old(self)@.insert(
                key@,
                bump_up(counter_of(old(self)@, key@)),
            ),
            !old(self)@.contains_key(key@) ==> r == Err::<(), MetricsError>(
                MetricsError::KeyNotFound,
            ) && final(self)@ == old(self)@,
    {
        let owned = key.to_owned();
        let mut i: usize = 0;
        let n = self.entries.len();
        while i < n
            invariant
                n == self.entries@.len(),
                i <= n,
                owned@ == key@,
                forall|k: int| 0 <= k < i ==> (#[trigger] self.entries@[k]).0@ != key@,
                self.wf(),
                self@ == old(self)@,
                self.entries@ == old(self).entries@,
            decreases n - i,
        {
            if self.entries[i].0 == owned {
                let cur = self.entries[i].1;
                let next = if cur == i64::MAX {
                    cur
                } else {
                    cur + 1
                };
                proof {
                    lemma_entries_get(self.entries@, i as int);
                }
                let ghost s0 = self.entries@;
                self.entries[i] = (owned, next);
                proof {
                    lemma_entries_update(s0, i as int, self.entries@[i as int]);
                    assert(unique_keys(self.entries@));
                }
                return Ok(());
            }
            i += 1;
        }
        proof {
            lemma_entries_absent(self.entries@, key@);
        }
        Err(MetricsError::KeyNotFound)
    }

    /// A copy of the current mapping, as key/counter pairs with one entry
    /// per key.
    pub fn counters(&self) -> (r: Vec<(String, i64)>)
        requires
            self.wf(),
        ensures
            entries_map(r@) == self@,
            unique_keys(r@),
    {
        let mut out: Vec<(String, i64)> = Vec::new();
        let mut i: usize = 0;
        let n = self.entries.len();
        while i < n
            invariant
                n == self.entries@.len(),
                i <= n,
                out@.len() == i,
                forall|k: int| 0 <= k < i ==> out@[k] == self.entries@[k],
            decreases n - i,
        {
            let key = self.entries[i].0.clone();
            let val = self.entries[i].1;
            out.push((key, val));
            i += 1;
        }
        proof {
            assert(out@ =~= self.entries@);
        }
        out
    }
}

} // verus!
