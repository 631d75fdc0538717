use snops_core::metrics::{Metrics, UPDATE_RATE_SECS};
use snops_core::strmap::StrMap;

#[test]
fn insert_get_remove() {
    let mut m: StrMap<u32> = StrMap::new();
    assert_eq!(m.len(), 0);
    assert_eq!(m.get("a"), None);
    m.insert("a".to_string(), 1);
    m.insert("b".to_string(), 2);
    m.insert("a".to_string(), 3);
    assert_eq!(m.len(), 2);
    assert_eq!(m.get("a"), Some(&3));
    assert_eq!(m.get("b"), Some(&2));
    assert_eq!(m.index_of("b"), Some(1));
    assert_eq!(m.index_of("c"), None);
    assert!(m.contains_key("a"));
    assert!(!m.contains_key("A"));
    assert!(!m.contains_key(""));
    m.remove("a");
    assert_eq!(m.len(), 1);
    assert_eq!(m.get("a"), None);
    assert_eq!(m.key_at(0), "b");
    assert_eq!(*m.value_at(0), 2);
    m.remove("zzz");
    assert_eq!(m.len(), 1);
}

#[test]
fn tps_counts_growth_between_scrapes() {
    let mut m = Metrics::new();
    assert_eq!(m.tps.get(), 0);
    m.tps.update(100);
    assert_eq!(m.tps.delta, 0);
    m.tps.update(100 + 15 * 7 + 14);
    assert_eq!(m.tps.delta, 119);
    assert_eq!(m.tps.get(), 7);
    // a total that fell counts as no growth
    m.tps.update(3);
    assert_eq!(m.tps.delta, 0);
    assert_eq!(m.tps.last_total, Some(3));
    assert_eq!(UPDATE_RATE_SECS, 15);
}
