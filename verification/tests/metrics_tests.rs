use matmul::{AmapMetrics, CmapMetrics, Metrics};
use matmul::metrics::MetricsError;

fn lookup(snapshot: &[(String, i64)], key: &str) -> Option<i64> {
    snapshot
        .iter()
        .find(|(k, _)| k == key)
        .map(|(_, v)| *v)
}

#[test]
fn metrics_counts_up_and_down() {
    let mut m = Metrics::new();
    m.inc(String::from("req.page")).unwrap();
    m.inc(String::from("req.page")).unwrap();
    m.inc(String::from("req.thread.1")).unwrap();
    m.dec(String::from("req.page")).unwrap();
    m.dec(String::from("errors")).unwrap();
    let snap = m.snapshot().unwrap();
    assert_eq!(lookup(&snap, "req.page"), Some(1));
    assert_eq!(lookup(&snap, "req.thread.1"), Some(1));
    assert_eq!(lookup(&snap, "errors"), Some(-1));
    assert_eq!(lookup(&snap, "absent"), None);
    assert_eq!(snap.len(), 3);
}

#[test]
fn metrics_default_is_empty() {
    let m = Metrics::default();
    assert!(m.snapshot().unwrap().is_empty());
}

#[test]
fn amap_increments_known_keys_only() {
    let mut m = AmapMetrics::new(&["calls", "errors", "calls"]);
    m.inc("calls").unwrap();
    m.inc("calls").unwrap();
    assert_eq!(m.inc("missing").unwrap_err(), MetricsError::KeyNotFound);
    m.inc("errors").unwrap();
    let snap = m.counters();
    assert_eq!(snap.len(), 2);
    assert_eq!(lookup(&snap, "calls"), Some(2));
    assert_eq!(lookup(&snap, "errors"), Some(1));
    assert_eq!(lookup(&snap, "missing"), None);
}

#[test]
fn cmap_clones_share_one_map() {
    let m = CmapMetrics::new();
    let shared = m.clone();
    m.inc(String::from("calls")).unwrap();
    shared.inc(String::from("calls")).unwrap();
    m.dec(String::from("errors")).unwrap();
}
