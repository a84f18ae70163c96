use vstd::prelude::*;

verus! {

use std::sync::Arc;
use crate::metrics::{bump_down, bump_up, MetricsError};

#[verifier::external_type_specification]
#[verifier::external_body]
#[verifier::reject_recursive_types(K)]
#[verifier::reject_recursive_types(V)]
#[verifier::reject_recursive_types(S)]
pub struct ExDashMap<K, V, S>(dashmap::DashMap<K, V, S>);

/// One step up on a counter value, stopping at the `i64` maximum.
fn bump_up_exec(v: i64) -> (r: i64)
    ensures
        r == bump_up(v),
{
    if v == i64::MAX {
        v
    } else {
        v + 1
    }
}

/// One step down on a counter value, stopping at the `i64` minimum.
fn bump_down_exec(v: i64) -> (r: i64)
    ensures
        r == bump_down(v),
{
    if v == i64::MIN {
        v
    } else {
        v - 1
    }
}

/// Relies on dashmap's DashMap::new: an empty concurrent map, here shared
/// through an Arc.
#[verifier::external_body]
fn dash_new() -> Arc<dashmap::DashMap<String, i64>> {
    Arc::new(dashmap::DashMap::new())
}

/// Relies on dashmap's DashMap::entry with Entry::and_modify and
/// Entry::or_insert_with: a present counter is bumped up in place, an
/// absent one starts at a zero counter bumped up. Other threads may touch
/// the same map concurrently, so nothing is stated of the contents.
#[verifier::external_body]
fn dash_bump_up(m: &Arc<dashmap::DashMap<String, i64>>, key: String) {
    m.entry(key).and_modify(|v| *v = bump_up_exec(*v)).or_insert_with(|| bump_up_exec(0));
}

/// Relies on dashmap's DashMap::entry with Entry::and_modify and
/// Entry::or_insert_with: a present counter is bumped down in place, an
/// absent one starts at a zero counter bumped down. Other threads may
/// touch the same map concurrently, so nothing is stated of the contents.
#[verifier::external_body]
fn dash_bump_down(m: &Arc<dashmap::DashMap<String, i64>>, key: String) {
    m.entry(key).and_modify(|v| *v = bump_down_exec(*v)).or_insert_with(|| bump_down_exec(0));
}

/// A counter store on a sharded concurrent map; clones share one map, and
/// counters may be bumped from many threads at once through `&self`. That
/// interior mutability keeps the contents outside any contract here: the
/// store promises only that its operations succeed.
#[derive(Debug, Clone)]
pub struct CmapMetrics {
    data: Arc<dashmap::DashMap<String, i64>>,
}

impl CmapMetrics {
    /// A store with every counter at zero.
    pub fn new() -> CmapMetrics {
        CmapMetrics { data: dash_new() }
    }

    /// Adds one to `key`'s counter, creating it first at zero if absent
    /// and stopping at the `i64` maximum. Never fails.
    pub fn inc(&self, key: String) -> (r: Result<(), MetricsError>)
        ensures
            r is Ok,
    {
        dash_bump_up(&self.data, key);
        Ok(())
    }

    /// Takes one from `key`'s counter, creating it first at zero if absent
    /// and stopping at the `i64` minimum. Never fails.
    pub fn dec(&self, key: String) -> (r: Result<(), MetricsError>)
        ensures
            r is Ok,
    {
        dash_bump_down(&self.data, key);
        Ok(())
    }
}

} // verus!
