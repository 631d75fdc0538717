use snops_core::block::LatestBlockInfo;
use snops_core::cache::{NetworkCache, MAX_BLOCK_RANGE, MAX_CULL_AGE_MICROS};

fn info(height: u32, hash: &str, ts: i64, update_time: i64) -> LatestBlockInfo {
    LatestBlockInfo {
        height,
        state_root: format!("root-{hash}"),
        block_hash: hash.to_string(),
        previous_hash: format!("prev-{hash}"),
        block_timestamp: ts,
        update_time,
    }
}

fn txs(ids: &[&str]) -> Vec<String> {
    ids.iter().map(|s| s.to_string()).collect()
}

#[test]
fn new_cache_is_empty() {
    let cache = NetworkCache::new();
    assert!(cache.latest.is_none());
    assert_eq!(cache.block_hash_at(0), None);
    assert_eq!(cache.height_of("A"), None);
    assert!(!cache.has_transaction("t1"));
    assert!(!cache.has_transactions_for_block("A"));
    assert!(!cache.is_recent_block(0));
    assert!(!cache.is_recent_block(u32::MAX));
    assert!(cache.stale_blocks_at(i64::MAX).is_empty());
}

#[test]
fn add_block_fills_all_four_indices() {
    let mut cache = NetworkCache::new();
    cache.add_block(info(7, "A", 1000, 50), txs(&["t1", "t2"]));
    assert_eq!(cache.block_hash_at(7), Some("A".to_string()));
    assert_eq!(cache.height_of("A"), Some(7));
    assert!(cache.has_transactions_for_block("A"));
    assert!(cache.has_transaction("t1"));
    assert!(cache.has_transaction("t2"));
    assert!(!cache.has_transaction("t3"));
    assert_eq!(cache.find_transaction("t2"), Some(&"A".to_string()));
    assert_eq!(cache.find_transaction("t3"), None);
    assert_eq!(cache.blocks.get("A"), Some(&info(7, "A", 1000, 50)));
    let list = cache.block_to_transaction.get("A").unwrap();
    assert_eq!(list.create_time, 50);
    assert_eq!(list.entries, txs(&["t1", "t2"]));
    // adding a block does not move the tip
    assert!(cache.latest.is_none());
}

#[test]
fn remove_block_clears_all_four_indices() {
    let mut cache = NetworkCache::new();
    cache.add_block(info(7, "A", 1000, 50), txs(&["t1", "t2"]));
    cache.add_block(info(8, "B", 1001, 51), txs(&["t3"]));
    cache.remove_block("A");
    assert_eq!(cache.block_hash_at(7), None);
    assert_eq!(cache.height_of("A"), None);
    assert!(!cache.has_transactions_for_block("A"));
    assert!(!cache.has_transaction("t1"));
    assert!(!cache.has_transaction("t2"));
    assert_eq!(cache.blocks.get("A"), None);
    assert_eq!(cache.block_hash_at(8), Some("B".to_string()));
    assert_eq!(cache.height_of("B"), Some(8));
    assert!(cache.has_transactions_for_block("B"));
    assert_eq!(cache.find_transaction("t3"), Some(&"B".to_string()));
    // removing what is not there changes nothing
    cache.remove_block("A");
    cache.remove_block("Z");
    assert_eq!(cache.blocks.len(), 1);
    assert_eq!(cache.block_to_transaction.len(), 1);
    assert_eq!(cache.transaction_to_block_hash.len(), 1);
    assert_eq!(cache.height_and_hash.len(), 1);
}

#[test]
fn indices_stay_consistent_over_a_history() {
    let mut cache = NetworkCache::new();
    cache.add_block(info(1, "A", 10, 0), txs(&["t1"]));
    cache.add_block(info(2, "B", 11, 0), txs(&["t2"]));
    // same height, other hash: the height now leads to C only
    cache.add_block(info(1, "C", 12, 0), txs(&["t1"]));
    assert_eq!(cache.block_hash_at(1), Some("C".to_string()));
    assert_eq!(cache.height_of("A"), None);
    assert_eq!(cache.height_of("C"), Some(1));
    assert_eq!(cache.find_transaction("t1"), Some(&"C".to_string()));
    // same hash, other height: the hash now leads to height 5 only
    cache.add_block(info(5, "B", 13, 0), txs(&[]));
    assert_eq!(cache.block_hash_at(2), None);
    assert_eq!(cache.block_hash_at(5), Some("B".to_string()));
    assert_eq!(cache.height_of("B"), Some(5));
    assert_eq!(cache.height_and_hash.len(), 2);
    cache.remove_block("C");
    cache.remove_block("B");
    for h in ["A", "B", "C"] {
        assert_eq!(
            cache.has_transactions_for_block(h),
            cache.blocks.contains_key(h)
        );
    }
    assert!(cache.blocks.contains_key("A"));
    assert_eq!(cache.height_and_hash.len(), 0);
    assert!(!cache.has_transaction("t1"));
    assert!(!cache.has_transaction("t2"));
}

#[test]
fn update_latest_info_takes_strictly_later_timestamps_only() {
    let mut cache = NetworkCache::new();
    assert!(cache.update_latest_info(&info(5, "A", 100, 0)));
    assert_eq!(cache.latest.as_ref().unwrap().block_hash, "A");
    assert!(!cache.update_latest_info(&info(6, "B", 100, 0)));
    assert_eq!(cache.latest.as_ref().unwrap().block_hash, "A");
    assert!(!cache.update_latest_info(&info(7, "C", 99, 0)));
    assert_eq!(cache.latest.as_ref().unwrap().block_hash, "A");
    assert!(cache.update_latest_info(&info(3, "D", 101, 0)));
    assert_eq!(cache.latest, Some(info(3, "D", 101, 0)));
}

#[test]
fn latest_holds_the_greatest_timestamp_offered() {
    let mut cache = NetworkCache::new();
    let offered = [5i64, -3, 17, 17, 2, 16, i64::MIN];
    for (i, ts) in offered.iter().enumerate() {
        cache.update_latest_info(&info(i as u32, &format!("H{i}"), *ts, 0));
    }
    let tip = cache.latest.as_ref().unwrap();
    assert_eq!(tip.block_timestamp, 17);
    // of two equal timestamps the first stays
    assert_eq!(tip.block_hash, "H2");
}

#[test]
fn is_recent_block_boundary() {
    let mut cache = NetworkCache::new();
    cache.update_latest_info(&info(100, "A", 1, 0));
    assert_eq!(MAX_BLOCK_RANGE, 10);
    assert!(!cache.is_recent_block(89));
    assert!(!cache.is_recent_block(90));
    assert!(cache.is_recent_block(91));
    assert!(cache.is_recent_block(100));
    assert!(cache.is_recent_block(1000));
}

#[test]
fn is_recent_block_saturates_at_zero() {
    let mut cache = NetworkCache::new();
    cache.update_latest_info(&info(4, "A", 1, 0));
    assert!(!cache.is_recent_block(0));
    assert!(cache.is_recent_block(1));
    let mut at_range = NetworkCache::new();
    at_range.update_latest_info(&info(10, "A", 1, 0));
    assert!(!at_range.is_recent_block(0));
    assert!(at_range.is_recent_block(1));
}

#[test]
fn two_blocks_end_to_end() {
    let t = 1_700_000_000i64;
    let mut cache = NetworkCache::new();
    let a = info(100, "A", t, 0);
    let b = info(101, "B", t + 1, 0);
    cache.add_block(a.clone(), txs(&[]));
    cache.update_latest_info(&a);
    cache.add_block(b.clone(), txs(&[]));
    cache.update_latest_info(&b);
    assert_eq!(cache.latest.as_ref().unwrap().height, 101);
    assert!(!cache.is_recent_block(90));
    assert!(cache.is_recent_block(95));
}

#[test]
fn stale_blocks_at_lists_exactly_the_old_ones() {
    let now = 10_000_000_000i64;
    let mut cache = NetworkCache::new();
    cache.add_block(info(1, "old", 1, now - MAX_CULL_AGE_MICROS - 1), txs(&["t1"]));
    cache.add_block(info(2, "edge", 2, now - MAX_CULL_AGE_MICROS), txs(&["t2"]));
    cache.add_block(info(3, "young", 3, now - 1), txs(&["t3"]));
    cache.add_block(info(4, "older", 4, 0), txs(&["t4"]));
    let mut stale = cache.stale_blocks_at(now);
    stale.sort();
    assert_eq!(stale, vec!["old".to_string(), "older".to_string()]);
    for h in &stale {
        cache.remove_block(h);
    }
    assert!(cache.stale_blocks_at(now).is_empty());
    assert!(cache.blocks.contains_key("edge"));
    assert!(cache.blocks.contains_key("young"));
    assert!(!cache.has_transaction("t1"));
    assert!(cache.has_transaction("t2"));
}

#[test]
fn stale_blocks_at_does_not_overflow() {
    let mut cache = NetworkCache::new();
    cache.add_block(info(1, "far", 1, i64::MAX), txs(&[]));
    cache.add_block(info(2, "past", 2, i64::MIN), txs(&[]));
    assert_eq!(cache.stale_blocks_at(i64::MAX), vec!["past".to_string()]);
    assert!(cache.stale_blocks_at(i64::MIN).is_empty());
}

#[test]
fn remove_stale_at_sweeps_once_and_for_all() {
    let now = 500_000_000i64;
    let mut cache = NetworkCache::new();
    cache.add_block(info(1, "A", 1, 0), txs(&["t1"]));
    cache.add_block(info(2, "B", 2, now), txs(&["t2"]));
    cache.add_block(info(3, "C", 3, 100), txs(&["t3"]));
    let mut removed = cache.remove_stale_at(now);
    removed.sort();
    assert_eq!(removed, vec!["A".to_string(), "C".to_string()]);
    assert!(cache.remove_stale_at(now).is_empty());
    assert_eq!(cache.blocks.len(), 1);
    assert_eq!(cache.height_of("B"), Some(2));
    assert_eq!(cache.height_of("A"), None);
}

#[test]
fn stale_blocks_by_the_clock() {
    let mut cache = NetworkCache::new();
    cache.add_block(info(1, "epoch", 1, 0), txs(&[]));
    cache.add_block(info(2, "future", 2, i64::MAX), txs(&[]));
    assert_eq!(cache.stale_blocks(), vec!["epoch".to_string()]);
    assert_eq!(cache.remove_stale(), vec!["epoch".to_string()]);
    assert!(cache.stale_blocks().is_empty());
    assert!(cache.blocks.contains_key("future"));
}
