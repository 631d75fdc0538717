use snops_core::block::LatestBlockInfo;
use snops_core::cache::NetworkCache;
use snops_core::peer::{ResponsiveRecord, MAX_PENALTY, MAX_PENALTY_MICROS};

fn block(height: u32, hash: &str, update_time: i64) -> LatestBlockInfo {
    LatestBlockInfo {
        height,
        state_root: "root".to_string(),
        block_hash: hash.to_string(),
        previous_hash: "prev".to_string(),
        block_timestamp: 42,
        update_time,
    }
}

#[test]
fn penalty_is_none_without_failures() {
    let r = ResponsiveRecord {
        failed_attempts: 0,
        total_successes: 9,
        last_attempt: 5,
        last_success: 1_000_000,
    };
    assert_eq!(r.penalty(), None);
    assert!(!r.has_penalty_at(0));
    assert!(!r.has_penalty_at(i64::MIN));
    assert!(!r.has_penalty());
}

#[test]
fn penalty_is_the_gap_from_attempt_to_success() {
    let r = ResponsiveRecord {
        failed_attempts: 1,
        total_successes: 0,
        last_attempt: 4_000_000,
        last_success: 10_000_000,
    };
    assert_eq!(r.penalty(), Some(6_000_000));
    // penalized until 10_000_000, not at it
    assert!(r.has_penalty_at(9_999_999));
    assert!(!r.has_penalty_at(10_000_000));
}

#[test]
fn penalty_is_capped() {
    assert_eq!(MAX_PENALTY, 3600);
    assert_eq!(MAX_PENALTY_MICROS, 3_600_000_000);
    let r = ResponsiveRecord {
        failed_attempts: 2,
        total_successes: 0,
        last_attempt: 0,
        last_success: 3_600_000_001,
    };
    assert_eq!(r.penalty(), Some(3_600_000_000));
    let at_cap = ResponsiveRecord { last_success: 3_600_000_000, ..r };
    assert_eq!(at_cap.penalty(), Some(3_600_000_000));
    let below = ResponsiveRecord { last_success: 3_599_999_999, ..r };
    assert_eq!(below.penalty(), Some(3_599_999_999));
    assert!(r.has_penalty_at(3_599_999_999));
    assert!(!r.has_penalty_at(3_600_000_000));
}

#[test]
fn penalty_shrinks_below_zero_as_failures_go_on() {
    // the attempt lies after the last success: the gap is negative
    let r = ResponsiveRecord {
        failed_attempts: 3,
        total_successes: 1,
        last_attempt: 9_000_000,
        last_success: 2_000_000,
    };
    assert_eq!(r.penalty(), Some(-7_000_000));
    assert!(r.has_penalty_at(1_999_999));
    assert!(!r.has_penalty_at(2_000_000));
    assert!(!r.has_penalty_at(9_000_000));
}

#[test]
fn penalty_on_extreme_times() {
    let r = ResponsiveRecord {
        failed_attempts: 1,
        total_successes: 0,
        last_attempt: i64::MAX,
        last_success: i64::MIN,
    };
    assert_eq!(r.penalty(), Some(i64::MIN as i128 - i64::MAX as i128));
    assert!(!r.has_penalty_at(i64::MIN));
    let far = ResponsiveRecord { last_attempt: i64::MIN, last_success: i64::MAX, ..r };
    assert_eq!(far.penalty(), Some(3_600_000_000));
    let late = ResponsiveRecord { last_attempt: i64::MAX, last_success: i64::MAX, ..r };
    assert_eq!(late.penalty(), Some(0));
    assert!(!late.has_penalty_at(i64::MAX));
    assert!(late.has_penalty_at(i64::MAX - 1));
}

#[test]
fn punish_and_reward_at() {
    let mut r = ResponsiveRecord::fresh(100);
    assert_eq!(
        r,
        ResponsiveRecord { failed_attempts: 0, total_successes: 0, last_attempt: 100, last_success: 100 }
    );
    r.punish_at(200);
    r.punish_at(300);
    assert_eq!(
        r,
        ResponsiveRecord { failed_attempts: 2, total_successes: 0, last_attempt: 300, last_success: 100 }
    );
    r.reward_at(400);
    assert_eq!(
        r,
        ResponsiveRecord { failed_attempts: 0, total_successes: 1, last_attempt: 400, last_success: 400 }
    );
}

#[test]
fn punish_and_reward_by_the_clock() {
    let mut r = ResponsiveRecord::fresh(0);
    r.punish();
    assert_eq!(r.failed_attempts, 1);
    assert_eq!(r.total_successes, 0);
    assert_eq!(r.last_success, 0);
    assert!(r.last_attempt > 0);
    r.reward();
    assert_eq!(r.failed_attempts, 0);
    assert_eq!(r.total_successes, 1);
    assert_eq!(r.last_success, r.last_attempt);
    assert!(!r.has_penalty());
}

#[test]
fn three_failures_then_a_success() {
    let mut cache = NetworkCache::new();
    cache.update_peer_req("peer", false);
    cache.update_peer_req("peer", false);
    cache.update_peer_req("peer", false);
    assert_eq!(cache.external_peer_record.get("peer").unwrap().failed_attempts, 3);
    cache.update_peer_req("peer", true);
    let record = cache.external_peer_record.get("peer").unwrap();
    assert_eq!(record.failed_attempts, 0);
    assert_eq!(record.total_successes, 1);
    assert!(!cache.is_peer_penalized("peer"));
}

#[test]
fn update_peer_req_at_starts_from_a_fresh_record() {
    let mut cache = NetworkCache::new();
    cache.update_peer_req_at("p", false, 1000);
    assert_eq!(
        cache.external_peer_record.get("p"),
        Some(&ResponsiveRecord {
            failed_attempts: 1,
            total_successes: 0,
            last_attempt: 1000,
            last_success: 1000
        })
    );
    cache.update_peer_req_at("q", true, 2000);
    assert_eq!(
        cache.external_peer_record.get("q"),
        Some(&ResponsiveRecord {
            failed_attempts: 0,
            total_successes: 1,
            last_attempt: 2000,
            last_success: 2000
        })
    );
    cache.update_peer_req_at("p", false, 3000);
    assert_eq!(
        cache.external_peer_record.get("p"),
        Some(&ResponsiveRecord {
            failed_attempts: 2,
            total_successes: 0,
            last_attempt: 3000,
            last_success: 1000
        })
    );
    assert_eq!(cache.external_peer_record.len(), 2);
}

#[test]
fn unknown_peer_is_not_penalized() {
    let cache = NetworkCache::new();
    assert!(!cache.is_peer_penalized("nobody"));
    assert!(!cache.is_peer_penalized_at("nobody", i64::MIN));
}

#[test]
fn is_peer_penalized_at_follows_the_record() {
    let mut cache = NetworkCache::new();
    cache.external_peer_record.insert(
        "p".to_string(),
        ResponsiveRecord {
            failed_attempts: 1,
            total_successes: 0,
            last_attempt: 1_000,
            last_success: 5_000,
        },
    );
    assert!(cache.is_peer_penalized_at("p", 4_999));
    assert!(!cache.is_peer_penalized_at("p", 5_000));
    assert!(!cache.is_peer_penalized_at("q", 0));
}

#[test]
fn update_peer_info_replaces() {
    let mut cache = NetworkCache::new();
    cache.update_peer_info("p".to_string(), block(1, "A", 5));
    cache.update_peer_info("p".to_string(), block(2, "B", 6));
    assert_eq!(cache.external_peer_infos.get("p"), Some(&block(2, "B", 6)));
    assert_eq!(cache.external_peer_infos.len(), 1);
}

#[test]
fn update_peer_info_for_hash_needs_a_cached_block() {
    let mut cache = NetworkCache::new();
    cache.update_peer_info_for_hash_at("p", "A", 77);
    assert_eq!(cache.external_peer_infos.get("p"), None);
    cache.add_block(block(1, "A", 5), vec![]);
    cache.update_peer_info_for_hash_at("p", "A", 77);
    assert_eq!(cache.external_peer_infos.get("p"), Some(&block(1, "A", 77)));
    // the cached record keeps its own time
    assert_eq!(cache.blocks.get("A"), Some(&block(1, "A", 5)));
}

#[test]
fn update_peer_info_for_hash_skips_the_same_hash() {
    let mut cache = NetworkCache::new();
    cache.add_block(block(1, "A", 5), vec![]);
    cache.add_block(block(2, "B", 6), vec![]);
    cache.update_peer_info_for_hash_at("p", "A", 77);
    cache.update_peer_info_for_hash_at("p", "A", 99);
    assert_eq!(cache.external_peer_infos.get("p").unwrap().update_time, 77);
    cache.update_peer_info_for_hash_at("p", "B", 99);
    assert_eq!(cache.external_peer_infos.get("p"), Some(&block(2, "B", 99)));
}

#[test]
fn update_peer_info_for_hash_by_the_clock() {
    let mut cache = NetworkCache::new();
    cache.add_block(block(1, "A", 5), vec![]);
    cache.update_peer_info_for_hash("p", "A");
    let known = cache.external_peer_infos.get("p").unwrap();
    assert_eq!(known.block_hash, "A");
    assert_eq!(known.height, 1);
    assert!(known.update_time > 5);
    cache.update_peer_info_for_hash("p", "missing");
    assert_eq!(cache.external_peer_infos.get("p").unwrap().block_hash, "A");
}
