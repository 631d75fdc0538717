//! The per-environment cache: recent blocks by hash and by height, their
//! transactions, the tip, and what is known of external peers.

use vstd::prelude::*;
use crate::block::{LatestBlockInfo, TransactionCache};
use crate::clock::now_micros;
use crate::height_index::{
    bimap_drop_right, bimap_get_by_left, bimap_get_by_right, bimap_insert, bimap_new, bimap_pairs,
    differs, injective, pairs_insert, pairs_without_right,
};
use crate::peer::ResponsiveRecord;
use crate::strmap::{str_eq, StrMap};

verus! {

/// How far below the tip a block may lie and still count as recent.
pub const MAX_BLOCK_RANGE: u32 = 10;

/// The age, in microseconds since it entered the cache, beyond which a block
/// is stale: three minutes.
pub const MAX_CULL_AGE_MICROS: i64 = 180_000_000;

/// Seconds between two sweeps of stale blocks.
pub const SWEEP_INTERVAL_SECS: u64 = 60;

/// The four block indices as mathematical maps, strings by their characters.
pub struct BlockIndex {
    /// Height to hash.
    pub heights: Map<u32, Seq<char>>,
    /// Hash to the block's transactions.
    pub block_txs: Map<Seq<char>, TransactionCache>,
    /// Transaction id to hash.
    pub tx_block: Map<Seq<char>, Seq<char>>,
    /// Hash to the block's record.
    pub blocks: Map<Seq<char>, LatestBlockInfo>,
}

/// Whether `t` is one of the ids in `txs`.
pub open spec fn listed(txs: Seq<String>, t: Seq<char>) -> bool {
    exists|i: int| 0 <= i < txs.len() && #[trigger] txs[i]@ == t
}

impl BlockIndex {
    pub open spec fn empty() -> BlockIndex {
        BlockIndex {
            heights: Map::empty(),
            block_txs: Map::empty(),
            tx_block: Map::empty(),
            blocks: Map::empty(),
        }
    }

    /// The indices agree with each other: no hash has two heights; a hash
    /// has a transaction list exactly when it has a record; every height and
    /// every transaction leads to a recorded block, a height to one of that
    /// height; and each record sits under its own hash, beside a
    /// transaction list of the same insertion time.
    pub open spec fn consistent(self) -> bool {
        &&& injective(self.heights)
        &&& forall|h: Seq<char>| #[trigger]
            self.block_txs.contains_key(h) <==> self.blocks.contains_key(h)
        &&& forall|l: u32| #[trigger]
            self.heights.contains_key(l) ==> self.blocks.contains_key(self.heights[l])
                && self.blocks[self.heights[l]].height == l
        &&& forall|t: Seq<char>| #[trigger]
            self.tx_block.contains_key(t) ==> self.blocks.contains_key(self.tx_block[t])
        &&& forall|h: Seq<char>| #[trigger]
            self.blocks.contains_key(h) ==> self.blocks[h].block_hash@ == h
                && self.block_txs[h].create_time == self.blocks[h].update_time
    }

    /// The indices after a block with its transactions is put in.
    pub open spec fn with_block(self, info: LatestBlockInfo, txs: Vec<String>) -> BlockIndex {
        let hash = info.block_hash@;
        BlockIndex {
            heights: pairs_insert(self.heights, info.height, hash),
            block_txs: self.block_txs.insert(
                hash,
                TransactionCache { create_time: info.update_time, entries: txs },
            ),
            tx_block: Map::new(
                |t: Seq<char>| self.tx_block.contains_key(t) || listed(txs@, t),
                |t: Seq<char>|
                    if listed(txs@, t) {
                        hash
                    } else {
                        self.tx_block[t]
                    },
            ),
            blocks: self.blocks.insert(hash, info),
        }
    }

    /// The indices after everything that leads to `hash` is taken out.
    pub open spec fn without_block(self, hash: Seq<char>) -> BlockIndex {
        BlockIndex {
            heights: pairs_without_right(self.heights, hash),
            block_txs: self.block_txs.remove(hash),
            tx_block: Map::new(
                |t: Seq<char>| self.tx_block.contains_key(t) && self.tx_block[t] != hash,
                |t: Seq<char>| self.tx_block[t],
            ),
            blocks: self.blocks.remove(hash),
        }
    }

    /// The indices after each hash of `hashes` is taken out in turn.
    pub open spec fn without_blocks(self, hashes: Seq<Seq<char>>) -> BlockIndex
        decreases hashes.len(),
    {
        if hashes.len() == 0 {
            self
        } else {
            self.without_blocks(hashes.drop_last()).without_block(hashes.last())
        }
    }

    /// The hashes whose record entered the cache more than the cull age
    /// before `now`.
    pub open spec fn stale(self, now: i64) -> Set<Seq<char>> {
        Set::new(|h: Seq<char>| self.blocks.contains_key(h) && is_stale(self.blocks[h], now))
    }
}

/// Whether `hashes` names exactly the blocks of `m` that are stale at `now`.
pub open spec fn lists_stale(hashes: Seq<String>, m: BlockIndex, now: i64) -> bool {
    forall|h: Seq<char>| listed(hashes, h) <==> m.stale(now).contains(h)
}

/// Whether a record is older than the cull age at `now`.
pub open spec fn is_stale(info: LatestBlockInfo, now: i64) -> bool {
    info.update_time + MAX_CULL_AGE_MICROS < now
}

/// The tip after `info` is offered: `info` where there was none or where
/// its timestamp is strictly later, else the tip as it was.
pub open spec fn next_latest(latest: Option<LatestBlockInfo>, info: LatestBlockInfo) -> Option<
    LatestBlockInfo,
> {
    if replaces(latest, info) {
        Some(info)
    } else {
        latest
    }
}

/// Whether `info` takes the place of the tip.
pub open spec fn replaces(latest: Option<LatestBlockInfo>, info: LatestBlockInfo) -> bool {
    match latest {
        Some(prev) => prev.block_timestamp < info.block_timestamp,
        None => true,
    }
}

/// Whether `height` lies less than the block range below a tip of height
/// `tip`; the lower end of the range stops at zero.
pub open spec fn within_range(tip: u32, height: u32) -> bool {
    if tip >= MAX_BLOCK_RANGE {
        tip - MAX_BLOCK_RANGE < height
    } else {
        0 < height
    }
}

/// The characters of each string of a list.
pub open spec fn views(s: Seq<String>) -> Seq<Seq<char>> {
    Seq::new(s.len(), |i: int| s[i]@)
}

/// A record with its insertion time set to `now`.
pub open spec fn stamped(info: LatestBlockInfo, now: i64) -> LatestBlockInfo {
    LatestBlockInfo {
        height: info.height,
        state_root: info.state_root,
        block_hash: info.block_hash,
        previous_hash: info.previous_hash,
        block_timestamp: info.block_timestamp,
        update_time: now,
    }
}

/// The track record of `key` after an attempt at `now`: a peer not heard of
/// before starts from a fresh record made at `now`.
pub open spec fn next_record(
    records: Map<Seq<char>, ResponsiveRecord>,
    key: Seq<char>,
    success: bool,
    now: i64,
) -> ResponsiveRecord {
    let base = if records.contains_key(key) {
        records[key]
    } else {
        ResponsiveRecord::spec_fresh(now)
    };
    if success {
        base.spec_rewarded(now)
    } else {
        base.spec_punished(now)
    }
}

/// Tracks the most recent blocks of one environment and its external peers.
pub struct NetworkCache {
    /// Height and hash, each leading to the other.
    pub height_and_hash: bimap::BiHashMap<u32, String>,
    /// Hash to the transactions of the block.
    pub block_to_transaction: StrMap<TransactionCache>,
    /// Transaction id to the hash of its block.
    pub transaction_to_block_hash: StrMap<String>,
    /// Hash to the block's record.
    pub blocks: StrMap<LatestBlockInfo>,
    /// Peer key to the latest block known of that peer.
    pub external_peer_infos: StrMap<LatestBlockInfo>,
    /// Peer key to the peer's track record.
    pub external_peer_record: StrMap<ResponsiveRecord>,
    /// The record with the greatest block timestamp seen.
    pub latest: Option<LatestBlockInfo>,
}

impl NetworkCache {
    /// The block indices as maps.
    pub open spec fn model(&self) -> BlockIndex {
        BlockIndex {
            heights: bimap_pairs(self.height_and_hash),
            block_txs: self.block_to_transaction@,
            tx_block: Map::new(
                |t: Seq<char>| self.transaction_to_block_hash@.contains_key(t),
                |t: Seq<char>| self.transaction_to_block_hash@[t]@,
            ),
            blocks: self.blocks@,
        }
    }

    /// Every table is well formed and the block indices agree.
    pub open spec fn wf(&self) -> bool {
        &&& self.block_to_transaction.wf()
        &&& self.transaction_to_block_hash.wf()
        &&& self.blocks.wf()
        &&& self.external_peer_infos.wf()
        &&& self.external_peer_record.wf()
        &&& self.model().consistent()
    }

    /// The tip and the peer tables are those of `other`.
    pub open spec fn same_tip_and_peers(&self, other: &NetworkCache) -> bool {
        &&& self.latest == other.latest
        &&& self.external_peer_infos == other.external_peer_infos
        &&& self.external_peer_record == other.external_peer_record
    }

    /// The block tables are those of `other`.
    pub open spec fn same_blocks(&self, other: &NetworkCache) -> bool {
        &&& self.height_and_hash == other.height_and_hash
        &&& self.block_to_transaction == other.block_to_transaction
        &&& self.transaction_to_block_hash == other.transaction_to_block_hash
        &&& self.blocks == other.blocks
    }

    /// A cache that holds nothing.
    pub fn new() -> (c: NetworkCache)
        ensures
            c.wf(),
            c.model() == BlockIndex::empty(),
            c.latest.is_none(),
            c.external_peer_infos@ == Map::<Seq<char>, LatestBlockInfo>::empty(),
            c.external_peer_record@ == Map::<Seq<char>, ResponsiveRecord>::empty(),
    {
        let c = NetworkCache {
            height_and_hash: bimap_new(),
            block_to_transaction: StrMap::new(),
            transaction_to_block_hash: StrMap::new(),
            blocks: StrMap::new(),
            external_peer_infos: StrMap::new(),
            external_peer_record: StrMap::new(),
            latest: None,
        };
        assert(c.model().tx_block =~= Map::<Seq<char>, Seq<char>>::empty());
        c
    }

    /// Offers `info` as the tip. It is taken where there is no tip yet or
    /// where its block timestamp is strictly later than the tip's.
    pub fn update_latest_info(&mut self, info: &LatestBlockInfo) -> (replaced: bool)
        ensures
            replaced == replaces(old(self).latest, *info),
            final(self).latest == next_latest(old(self).latest, *info),
            final(self).same_blocks(old(self)),
            final(self).external_peer_infos == old(self).external_peer_infos,
            final(self).external_peer_record == old(self).external_peer_record,
    {
        let take = match &self.latest {
            Some(prev) => prev.block_timestamp < info.block_timestamp,
            None => true,
        };
        if take {
            self.latest = Some(info.duplicate());
        }
        take
    }

    /// Adds a block with its transactions to all four indices.
    pub fn add_block(&mut self, block_info: LatestBlockInfo, txs: Vec<String>)
        requires
            old(self).wf(),
        ensures
            final(self).wf(),
            final(self).model() == old(self).model().with_block(block_info, txs),
            final(self).same_tip_and_peers(old(self)),
    {
        let ghost before = *self;
        let hash = block_info.block_hash.clone();
        bimap_insert(&mut self.height_and_hash, block_info.height, hash.clone());
        let ghost heights = self.height_and_hash;
        let mut i: usize = 0;
        while i < txs.len()
            invariant
                i <= txs.len(),
                hash@ == block_info.block_hash@,
                self.transaction_to_block_hash.wf(),
                self.block_to_transaction == before.block_to_transaction,
                self.blocks == before.blocks,
                self.height_and_hash == heights,
                self.same_tip_and_peers(&before),
                forall|t: Seq<char>| #[trigger]
                    self.transaction_to_block_hash@.contains_key(t) <==> (
                    before.transaction_to_block_hash@.contains_key(t) || listed(
                        txs@.take(i as int),
                        t,
                    )),
                forall|t: Seq<char>| #[trigger]
                    self.transaction_to_block_hash@.contains_key(t)
                        ==> self.transaction_to_block_hash@[t]@ == (if listed(
                        txs@.take(i as int),
                        t,
                    ) {
                        hash@
                    } else {
                        before.transaction_to_block_hash@[t]@
                    }),
            decreases txs.len() - i,
        {
            self.transaction_to_block_hash.insert(txs[i].clone(), hash.clone());
            proof {
                let a = txs@.take(i as int);
                let b = txs@.take(i as int + 1);
                assert(b[i as int]@ == txs[i as int]@);
                assert forall|t: Seq<char>| listed(b, t) <==> (listed(a, t) || t == txs[i as int]@) by {
                    if listed(a, t) {
                        let j = choose|j: int| 0 <= j < a.len() && #[trigger] a[j]@ == t;
                        assert(b[j]@ == t);
                    }
                    if listed(b, t) {
                        let j = choose|j: int| 0 <= j < b.len() && #[trigger] b[j]@ == t;
                        if j < i {
                            assert(a[j]@ == t);
                        }
                    }
                }
            }
            i += 1;
        }
        proof {
            assert(txs@.take(txs.len() as int) =~= txs@);
        }
        let tc = TransactionCache { create_time: block_info.update_time, entries: txs };
        self.block_to_transaction.insert(hash.clone(), tc);
        self.blocks.insert(hash, block_info);
        proof {
            let want = before.model().with_block(block_info, txs);
            assert(self.model().tx_block =~= want.tx_block);
            assert(self.model().heights =~= want.heights);
            lemma_with_block_consistent(before.model(), block_info, txs);
        }
    }

    /// Removes a block from all four indices.
    pub fn remove_block(&mut self, block_hash: &str)
        requires
            old(self).wf(),
        ensures
            final(self).wf(),
            final(self).model() == old(self).model().without_block(block_hash@),
            final(self).same_tip_and_peers(old(self)),
    {
        let ghost before = *self;
        bimap_drop_right(&mut self.height_and_hash, block_hash);
        self.block_to_transaction.remove(block_hash);
        let mut kept: StrMap<String> = StrMap::new();
        let n = self.transaction_to_block_hash.len();
        let mut i: usize = 0;
        while i < n
            invariant
                i <= n,
                n == self.transaction_to_block_hash.keys.len(),
                self.transaction_to_block_hash.wf(),
                kept.wf(),
                forall|t: Seq<char>| #[trigger]
                    kept@.contains_key(t) <==> exists|j: int|
                        0 <= j < i && self.transaction_to_block_hash.has_key_at(t, j)
                            && self.transaction_to_block_hash.vals[j]@ != block_hash@,
                forall|t: Seq<char>| #[trigger]
                    kept@.contains_key(t) ==> self.transaction_to_block_hash@.contains_key(t)
                        && kept@[t]@ == self.transaction_to_block_hash@[t]@,
            decreases n - i,
        {
            let ghost prev = kept;
            let k = self.transaction_to_block_hash.key_at(i);
            let v = self.transaction_to_block_hash.value_at(i);
            if differs(v, block_hash) {
                kept.insert(k.clone(), v.clone());
            }
            proof {
                let m = self.transaction_to_block_hash;
                assert forall|t: Seq<char>| #[trigger]
                    kept@.contains_key(t) <==> exists|j: int|
                        0 <= j < i + 1 && m.has_key_at(t, j) && m.vals[j]@ != block_hash@ by {
                    if kept@.contains_key(t) {
                        if prev@.contains_key(t) {
                            let j = choose|j: int|
                                0 <= j < i && m.has_key_at(t, j) && m.vals[j]@ != block_hash@;
                            assert(0 <= j < i + 1 && m.has_key_at(t, j) && m.vals[j]@
                                != block_hash@);
                        } else {
                            assert(m.has_key_at(t, i as int));
                        }
                    }
                    if exists|j: int|
                        0 <= j < i + 1 && m.has_key_at(t, j) && m.vals[j]@ != block_hash@ {
                        let j = choose|j: int|
                            0 <= j < i + 1 && m.has_key_at(t, j) && m.vals[j]@ != block_hash@;
                        if j < i {
                            assert(prev@.contains_key(t));
                        }
                    }
                }
            }
            i += 1;
        }
        proof {
            let m = self.transaction_to_block_hash;
            assert forall|t: Seq<char>| #[trigger]
                kept@.contains_key(t) <==> (m@.contains_key(t) && m@[t]@ != block_hash@) by {
                if m@.contains_key(t) && m@[t]@ != block_hash@ {
                    let j = m.lemma_key_slot(t);
                    assert(0 <= j < n && m.has_key_at(t, j) && m.vals[j]@ != block_hash@);
                }
            }
        }
        self.transaction_to_block_hash = kept;
        self.blocks.remove(block_hash);
        proof {
            let want = before.model().without_block(block_hash@);
            assert(self.model().tx_block =~= want.tx_block);
            lemma_without_block_consistent(before.model(), block_hash@);
        }
    }

    /// Whether the cache has a transaction list for the block `block_hash`.
    pub fn has_transactions_for_block(&self, block_hash: &str) -> (r: bool)
        requires
            self.wf(),
        ensures
            r == self.model().block_txs.contains_key(block_hash@),
    {
        self.block_to_transaction.contains_key(block_hash)
    }

    /// Whether the cache knows the transaction `tx_id`.
    pub fn has_transaction(&self, tx_id: &str) -> (r: bool)
        requires
            self.wf(),
        ensures
            r == self.model().tx_block.contains_key(tx_id@),
    {
        self.transaction_to_block_hash.contains_key(tx_id)
    }

    /// The hash of the block that holds the transaction `tx_id`.
    pub fn find_transaction(&self, tx_id: &str) -> (r: Option<&String>)
        requires
            self.wf(),
        ensures
            match r {
                Some(h) => self.model().tx_block.contains_key(tx_id@) && self.model().tx_block[tx_id@]
                    == h@,
                None => !self.model().tx_block.contains_key(tx_id@),
            },
    {
        self.transaction_to_block_hash.get(tx_id)
    }

    /// The hash recorded for `height`.
    pub fn block_hash_at(&self, height: u32) -> (r: Option<String>)
        ensures
            match r {
                Some(h) => self.model().heights.contains_key(height) && self.model().heights[height]
                    == h@,
                None => !self.model().heights.contains_key(height),
            },
    {
        bimap_get_by_left(&self.height_and_hash, height)
    }

    /// The height recorded for `block_hash`.
    pub fn height_of(&self, block_hash: &str) -> (r: Option<u32>)
        ensures
            match r {
                Some(l) => self.model().heights.contains_key(l) && self.model().heights[l]
                    == block_hash@,
                None => forall|l: u32|
                    self.model().heights.contains_key(l) ==> self.model().heights[l]
                        != block_hash@,
            },
    {
        bimap_get_by_right(&self.height_and_hash, block_hash)
    }

    /// Whether `height` lies within the block range below the tip. Without a
    /// tip no block is recent.
    pub fn is_recent_block(&self, height: u32) -> (r: bool)
        ensures
            r == match self.latest {
                Some(tip) => within_range(tip.height, height),
                None => false,
            },
    {
        match &self.latest {
            Some(tip) => {
                let floor: u32 = if tip.height >= MAX_BLOCK_RANGE {
                    tip.height - MAX_BLOCK_RANGE
                } else {
                    0
                };
                floor < height
            },
            None => false,
        }
    }

    /// The hashes of the blocks that are stale at `now`, each once.
    pub fn stale_blocks_at(&self, now: i64) -> (r: Vec<String>)
        requires
            self.wf(),
        ensures
            lists_stale(r@, self.model(), now),
            forall|a: int, b: int| 0 <= a < b < r.len() ==> r[a]@ != r[b]@,
    {
        let mut out: Vec<String> = Vec::new();
        let n = self.blocks.len();
        let mut i: usize = 0;
        while i < n
            invariant
                i <= n,
                n == self.blocks.keys.len(),
                self.blocks.wf(),
                forall|h: Seq<char>|
                    listed(out@, h) <==> exists|j: int|
                        0 <= j < i && self.blocks.has_key_at(h, j) && is_stale(
                            self.blocks.vals[j],
                            now,
                        ),
                forall|a: int, b: int| 0 <= a < b < out.len() ==> out[a]@ != out[b]@,
            decreases n - i,
        {
            let ghost prev = out@;
            let k = self.blocks.key_at(i);
            let v = self.blocks.value_at(i);
            let stale = (v.update_time as i128) + (MAX_CULL_AGE_MICROS as i128) < (now as i128);
            if stale {
                out.push(k.clone());
            }
            proof {
                let m = self.blocks;
                assert forall|h: Seq<char>|
                    listed(out@, h) <==> exists|j: int|
                        0 <= j < i + 1 && m.has_key_at(h, j) && is_stale(m.vals[j], now) by {
                    if listed(out@, h) {
                        let a = choose|a: int| 0 <= a < out@.len() && #[trigger] out@[a]@ == h;
                        if a < prev.len() {
                            assert(prev[a]@ == h);
                            assert(listed(prev, h));
                            let j = choose|j: int|
                                0 <= j < i && m.has_key_at(h, j) && is_stale(m.vals[j], now);
                            assert(0 <= j < i + 1 && m.has_key_at(h, j) && is_stale(
                                m.vals[j],
                                now,
                            ));
                        } else {
                            assert(m.has_key_at(h, i as int) && is_stale(m.vals[i as int], now));
                        }
                    }
                    if exists|j: int|
                        0 <= j < i + 1 && m.has_key_at(h, j) && is_stale(m.vals[j], now) {
                        let j = choose|j: int|
                            0 <= j < i + 1 && m.has_key_at(h, j) && is_stale(m.vals[j], now);
                        if j < i {
                            assert(listed(prev, h));
                            let a = choose|a: int| 0 <= a < prev.len() && #[trigger] prev[a]@ == h;
                            assert(out@[a]@ == h);
                        } else {
                            assert(out@[out@.len() - 1]@ == h);
                        }
                    }
                }
                assert forall|a: int, b: int| 0 <= a < b < out.len() implies out[a]@
                    != out[b]@ by {
                    if stale && b == out.len() - 1 {
                        if out[a]@ == out[b]@ {
                            assert(prev[a]@ == m.keys[i as int]@);
                            assert(listed(prev, m.keys[i as int]@));
                        }
                    }
                }
            }
            i += 1;
        }
        proof {
            let m = self.blocks;
            assert forall|h: Seq<char>| listed(out@, h) <==> self.model().stale(now).contains(
                h,
            ) by {
                if listed(out@, h) {
                    let j = choose|j: int|
                        0 <= j < n && m.has_key_at(h, j) && is_stale(m.vals[j], now);
                    m.lemma_slot(j);
                }
                if self.model().stale(now).contains(h) {
                    let j = m.lemma_key_slot(h);
                    assert(0 <= j < n && m.has_key_at(h, j) && is_stale(m.vals[j], now));
                }
            }
        }
        out
    }

    /// The hashes of the blocks that are stale now, each once. Whatever the
    /// clock says, every hash handed out has a record.
    pub fn stale_blocks(&self) -> (r: Vec<String>)
        requires
            self.wf(),
        ensures
            exists|now: i64| #[trigger] lists_stale(r@, self.model(), now),
            forall|a: int, b: int| 0 <= a < b < r.len() ==> r[a]@ != r[b]@,
    {
        let now = now_micros();
        self.stale_blocks_at(now)
    }

    /// Removes every block that is stale at `now` and hands back the hashes
    /// removed. No block that is left is stale at `now`.
    pub fn remove_stale_at(&mut self, now: i64) -> (removed: Vec<String>)
        requires
            old(self).wf(),
        ensures
            final(self).wf(),
            lists_stale(removed@, old(self).model(), now),
            final(self).model() == old(self).model().without_blocks(views(removed@)),
            final(self).model().stale(now) == Set::<Seq<char>>::empty(),
            final(self).same_tip_and_peers(old(self)),
    {
        let ghost before = *self;
        let stale = self.stale_blocks_at(now);
        let mut i: usize = 0;
        while i < stale.len()
            invariant
                i <= stale.len(),
                self.wf(),
                self.same_tip_and_peers(&before),
                self.model() == before.model().without_blocks(views(stale@).take(i as int)),
            decreases stale.len() - i,
        {
            self.remove_block(stale[i].as_str());
            proof {
                let s = views(stale@).take(i as int + 1);
                assert(s.drop_last() =~= views(stale@).take(i as int));
                assert(s.last() == stale[i as int]@);
            }
            i += 1;
        }
        proof {
            assert(views(stale@).take(stale.len() as int) =~= views(stale@));
            assert forall|h: Seq<char>| before.model().stale(now).contains(h) implies views(
                stale@,
            ).contains(h) by {
                assert(listed(stale@, h));
                let a = choose|a: int| 0 <= a < stale@.len() && #[trigger] stale@[a]@ == h;
                assert(views(stale@)[a] == h);
            }
            lemma_no_stale_after_removal(before.model(), views(stale@), now);
        }
        stale
    }

    /// Removes every block that is stale now and hands back the hashes
    /// removed: the sweep that runs once a minute on each cache.
    pub fn remove_stale(&mut self) -> (removed: Vec<String>)
        requires
            old(self).wf(),
        ensures
            final(self).wf(),
            final(self).model() == old(self).model().without_blocks(views(removed@)),
            exists|now: i64|
                {
                    &&& final(self).model().stale(now) == Set::<Seq<char>>::empty()
                    &&& #[trigger] lists_stale(removed@, old(self).model(), now)
                },
            final(self).same_tip_and_peers(old(self)),
    {
        let now = now_micros();
        self.remove_stale_at(now)
    }

    /// Records `info` as the latest block known of the peer `key`.
    pub fn update_peer_info(&mut self, key: String, info: LatestBlockInfo)
        requires
            old(self).wf(),
        ensures
            final(self).wf(),
            final(self).external_peer_infos@ == old(self).external_peer_infos@.insert(key@, info),
            final(self).same_blocks(old(self)),
            final(self).latest == old(self).latest,
            final(self).external_peer_record == old(self).external_peer_record,
    {
        self.external_peer_infos.insert(key, info);
    }

    /// Whether a report that the peer `key` is at block `hash` changes what
    /// is recorded: the block is cached and is not the one already recorded
    /// for the peer.
    pub open spec fn peer_info_due(&self, key: Seq<char>, hash: Seq<char>) -> bool {
        &&& self.blocks@.contains_key(hash)
        &&& !(self.external_peer_infos@.contains_key(key)
            && self.external_peer_infos@[key].block_hash@ == hash)
    }

    /// Records the cached block `hash`, stamped with `now`, as the latest
    /// known of the peer `key`, where that changes anything.
    pub fn update_peer_info_for_hash_at(&mut self, key: &str, hash: &str, now: i64)
        requires
            old(self).wf(),
        ensures
            final(self).wf(),
            old(self).peer_info_due(key@, hash@) ==> final(self).external_peer_infos@ == old(
                self,
            ).external_peer_infos@.insert(key@, stamped(old(self).blocks@[hash@], now)),
            !old(self).peer_info_due(key@, hash@) ==> final(self).external_peer_infos == old(
                self,
            ).external_peer_infos,
            final(self).same_blocks(old(self)),
            final(self).latest == old(self).latest,
            final(self).external_peer_record == old(self).external_peer_record,
    {
        let mut info = match self.blocks.get(hash) {
            Some(info) => info.duplicate(),
            None => {
                return ;
            },
        };
        match self.external_peer_infos.get(key) {
            Some(known) => {
                if str_eq(known.block_hash.as_str(), hash) {
                    return ;
                }
            },
            None => {},
        }
        info.update_time = now;
        self.update_peer_info(key.to_owned(), info);
    }

    /// Records the cached block `hash`, stamped with the current time, as
    /// the latest known of the peer `key`, where that changes anything.
    pub fn update_peer_info_for_hash(&mut self, key: &str, hash: &str)
        requires
            old(self).wf(),
        ensures
            final(self).wf(),
            old(self).peer_info_due(key@, hash@) ==> exists|now: i64|
                final(self).external_peer_infos@ == old(self).external_peer_infos@.insert(
                    key@,
                    #[trigger] stamped(old(self).blocks@[hash@], now),
                ),
            !old(self).peer_info_due(key@, hash@) ==> final(self).external_peer_infos == old(
                self,
            ).external_peer_infos,
            final(self).same_blocks(old(self)),
            final(self).latest == old(self).latest,
            final(self).external_peer_record == old(self).external_peer_record,
    {
        let now = now_micros();
        self.update_peer_info_for_hash_at(key, hash, now);
    }

    /// Whether the counter that an attempt on `key` raises can be raised.
    pub open spec fn peer_has_room(&self, key: Seq<char>, success: bool) -> bool {
        self.external_peer_record@.contains_key(key) ==> self.external_peer_record@[key].has_room(
            success,
        )
    }

    /// Counts an attempt on the peer `key` made at `now`.
    pub fn update_peer_req_at(&mut self, key: &str, success: bool, now: i64)
        requires
            old(self).wf(),
            old(self).peer_has_room(key@, success),
        ensures
            final(self).wf(),
            final(self).external_peer_record@ == old(self).external_peer_record@.insert(
                key@,
                next_record(old(self).external_peer_record@, key@, success, now),
            ),
            final(self).same_blocks(old(self)),
            final(self).latest == old(self).latest,
            final(self).external_peer_infos == old(self).external_peer_infos,
    {
        let mut record = match self.external_peer_record.get(key) {
            Some(r) => *r,
            None => ResponsiveRecord::fresh(now),
        };
        if success {
            record.reward_at(now);
        } else {
            record.punish_at(now);
        }
        self.external_peer_record.insert(key.to_owned(), record);
    }

    /// Counts an attempt on the peer `key` made now.
    pub fn update_peer_req(&mut self, key: &str, success: bool)
        requires
            old(self).wf(),
            old(self).peer_has_room(key@, success),
        ensures
            final(self).wf(),
            exists|now: i64|
                final(self).external_peer_record@ == old(self).external_peer_record@.insert(
                    key@,
                    #[trigger] next_record(old(self).external_peer_record@, key@, success, now),
                ),
            final(self).same_blocks(old(self)),
            final(self).latest == old(self).latest,
            final(self).external_peer_infos == old(self).external_peer_infos,
    {
        let now = now_micros();
        self.update_peer_req_at(key, success, now);
    }

    /// Whether the peer `key` has a track record with a penalty that ends
    /// after `now`.
    pub open spec fn penalized_at(&self, key: Seq<char>, now: i64) -> bool {
        self.external_peer_record@.contains_key(key)
            && self.external_peer_record@[key].penalized_at(now)
    }

    /// Whether the peer `key` is waiting out a penalty at `now`. A peer
    /// without a track record is not.
    pub fn is_peer_penalized_at(&self, key: &str, now: i64) -> (r: bool)
        requires
            self.wf(),
        ensures
            r == self.penalized_at(key@, now),
    {
        match self.external_peer_record.get(key) {
            Some(record) => record.has_penalty_at(now),
            None => false,
        }
    }

    /// Whether the peer `key` is waiting out a penalty now. Whatever the
    /// clock says, a peer without a track record, or without a failure since
    /// its last success, is not.
    pub fn is_peer_penalized(&self, key: &str) -> (r: bool)
        requires
            self.wf(),
        ensures
            !self.external_peer_record@.contains_key(key@) ==> !r,
            self.external_peer_record@.contains_key(key@)
                && self.external_peer_record@[key@].failed_attempts == 0 ==> !r,
            exists|now: i64| r == #[trigger] self.penalized_at(key@, now),
    {
        let now = now_micros();
        self.is_peer_penalized_at(key, now)
    }
}

/// What a sequence of removals leaves of the records: those whose hash is
/// not in the sequence, unchanged.
pub proof fn lemma_without_blocks_records(m: BlockIndex, hashes: Seq<Seq<char>>)
    ensures
        forall|h: Seq<char>| #[trigger]
            m.without_blocks(hashes).blocks.contains_key(h) <==> (m.blocks.contains_key(h)
                && !hashes.contains(h)),
        forall|h: Seq<char>| #[trigger]
            m.without_blocks(hashes).blocks.contains_key(h) ==> m.without_blocks(hashes).blocks[h]
                == m.blocks[h],
    decreases hashes.len(),
{
    if hashes.len() > 0 {
        let front = hashes.drop_last();
        let p = m.without_blocks(front);
        let r = m.without_blocks(hashes);
        assert(r == p.without_block(hashes.last()));
        lemma_without_blocks_records(m, front);
        assert forall|h: Seq<char>| #[trigger] r.blocks.contains_key(h) implies p.blocks.contains_key(
            h,
        ) && r.blocks[h] == p.blocks[h] && h != hashes.last() by {}
        assert forall|h: Seq<char>| p.blocks.contains_key(h) && h
            != hashes.last() implies #[trigger] r.blocks.contains_key(h) by {}
        assert forall|h: Seq<char>| hashes.contains(h) <==> (front.contains(h) || h
            == hashes.last()) by {
            if front.contains(h) {
                let i = choose|i: int| 0 <= i < front.len() && front[i] == h;
                assert(hashes[i] == h);
            }
            if hashes.contains(h) {
                let i = choose|i: int| 0 <= i < hashes.len() && hashes[i] == h;
                if i < hashes.len() - 1 {
                    assert(front[i] == h);
                }
            }
        }
    }
}

/// Once every block that is stale at `now` has been removed, none of the
/// blocks left is stale at `now`.
pub proof fn lemma_no_stale_after_removal(m: BlockIndex, hashes: Seq<Seq<char>>, now: i64)
    requires
        forall|h: Seq<char>| m.stale(now).contains(h) ==> hashes.contains(h),
    ensures
        m.without_blocks(hashes).stale(now) == Set::<Seq<char>>::empty(),
{
    lemma_without_blocks_records(m, hashes);
    let r = m.without_blocks(hashes);
    assert forall|h: Seq<char>| !r.stale(now).contains(h) by {
        if r.blocks.contains_key(h) && is_stale(r.blocks[h], now) {
            assert(m.stale(now).contains(h));
        }
    }
    assert(r.stale(now) =~= Set::<Seq<char>>::empty());
}

/// One step of a history of the cache.
pub enum BlockOp {
    /// A block is added with its transactions.
    Add(LatestBlockInfo, Vec<String>),
    /// The block of this hash is removed.
    Remove(Seq<char>),
}

/// The indices after the steps of `ops`, first to last.
pub open spec fn after_ops(m: BlockIndex, ops: Seq<BlockOp>) -> BlockIndex
    decreases ops.len(),
{
    if ops.len() == 0 {
        m
    } else {
        let p = after_ops(m, ops.drop_last());
        match ops.last() {
            BlockOp::Add(info, txs) => p.with_block(info, txs),
            BlockOp::Remove(hash) => p.without_block(hash),
        }
    }
}

/// Whatever blocks are added and removed, in whatever order, the indices of
/// a cache that started empty agree with each other.
pub proof fn lemma_history_consistent(ops: Seq<BlockOp>)
    ensures
        after_ops(BlockIndex::empty(), ops).consistent(),
    decreases ops.len(),
{
    if ops.len() > 0 {
        lemma_history_consistent(ops.drop_last());
        let p = after_ops(BlockIndex::empty(), ops.drop_last());
        match ops.last() {
            BlockOp::Add(info, txs) => lemma_with_block_consistent(p, info, txs),
            BlockOp::Remove(hash) => lemma_without_block_consistent(p, hash),
        }
    }
}

/// The tip after each record of `infos` was offered in turn.
pub open spec fn latest_after(latest: Option<LatestBlockInfo>, infos: Seq<LatestBlockInfo>) -> Option<
    LatestBlockInfo,
>
    decreases infos.len(),
{
    if infos.len() == 0 {
        latest
    } else {
        next_latest(latest_after(latest, infos.drop_last()), infos.last())
    }
}

/// After any records were offered to a cache without a tip, the tip is one
/// of them and no record offered has a later block timestamp.
pub proof fn lemma_latest_is_max(infos: Seq<LatestBlockInfo>)
    requires
        infos.len() > 0,
    ensures
        latest_after(None, infos).is_some(),
        infos.contains(latest_after(None, infos).unwrap()),
        forall|i: int|
            0 <= i < infos.len() ==> infos[i].block_timestamp <= latest_after(
                None,
                infos,
            ).unwrap().block_timestamp,
    decreases infos.len(),
{
    let front = infos.drop_last();
    if front.len() > 0 {
        lemma_latest_is_max(front);
        let tip = latest_after(None, front).unwrap();
        let i = choose|i: int| 0 <= i < front.len() && front[i] == tip;
        assert(infos[i] == tip);
        assert forall|i: int| 0 <= i < infos.len() implies infos[i].block_timestamp
            <= latest_after(None, infos).unwrap().block_timestamp by {
            if i < front.len() {
                assert(front[i] == infos[i]);
            }
        }
    }
    assert(infos[infos.len() - 1] == infos.last());
}

/// A success clears the failures, and with them the penalty: right after
/// it the peer is penalized at no time.
pub proof fn lemma_success_clears_penalty(record: ResponsiveRecord, now: i64, at: int)
    ensures
        record.spec_rewarded(now).failed_attempts == 0,
        record.spec_rewarded(now).spec_penalty().is_none(),
        !record.spec_rewarded(now).spec_has_penalty_at(at),
{
}

/// After a successful attempt the peer has no failures on record and is
/// penalized at no time, whatever its record was before.
pub proof fn lemma_success_unpenalizes(
    records: Map<Seq<char>, ResponsiveRecord>,
    key: Seq<char>,
    now: i64,
    at: int,
)
    ensures
        next_record(records, key, true, now).failed_attempts == 0,
        !next_record(records, key, true, now).spec_has_penalty_at(at),
{
}

impl Default for NetworkCache {
    fn default() -> (c: NetworkCache)
        ensures
            c.wf(),
            c.model() == BlockIndex::empty(),
            c.latest.is_none(),
            c.external_peer_infos@ == Map::<Seq<char>, LatestBlockInfo>::empty(),
            c.external_peer_record@ == Map::<Seq<char>, ResponsiveRecord>::empty(),
    {
        NetworkCache::new()
    }
}

/// Putting a block into consistent indices leaves them consistent.
pub proof fn lemma_with_block_consistent(m: BlockIndex, info: LatestBlockInfo, txs: Vec<String>)
    requires
        m.consistent(),
    ensures
        m.with_block(info, txs).consistent(),
{
    let r = m.with_block(info, txs);
    assert forall|a: u32, b: u32|
        r.heights.contains_key(a) && r.heights.contains_key(b) && #[trigger] r.heights[a]
            == #[trigger] r.heights[b] implies a == b by {
        if a != info.height && b != info.height {
            assert(m.heights[a] == m.heights[b]);
        }
    }
    assert forall|l: u32| #[trigger] r.heights.contains_key(l) implies r.blocks.contains_key(
        r.heights[l],
    ) && r.blocks[r.heights[l]].height == l by {
        if l != info.height {
            assert(m.heights.contains_key(l));
        }
    }
    assert forall|t: Seq<char>| #[trigger] r.tx_block.contains_key(t) implies r.blocks.contains_key(
        r.tx_block[t],
    ) by {
        if !listed(txs@, t) {
            assert(m.tx_block.contains_key(t));
        }
    }
    assert forall|h: Seq<char>| #[trigger] r.blocks.contains_key(h) implies r.blocks[h].block_hash@
        == h && r.block_txs[h].create_time == r.blocks[h].update_time by {
        if h != info.block_hash@ {
            assert(m.blocks.contains_key(h));
        }
    }
    assert forall|h: Seq<char>| #[trigger]
        r.block_txs.contains_key(h) <==> r.blocks.contains_key(h) by {
        if h != info.block_hash@ {
            assert(m.block_txs.contains_key(h) <==> m.blocks.contains_key(h));
        }
    }
}

/// Taking a block out of consistent indices leaves them consistent.
pub proof fn lemma_without_block_consistent(m: BlockIndex, hash: Seq<char>)
    requires
        m.consistent(),
    ensures
        m.without_block(hash).consistent(),
{
    let r = m.without_block(hash);
    assert forall|a: u32, b: u32|
        r.heights.contains_key(a) && r.heights.contains_key(b) && #[trigger] r.heights[a]
            == #[trigger] r.heights[b] implies a == b by {
        assert(m.heights[a] == m.heights[b]);
    }
    assert forall|l: u32| #[trigger] r.heights.contains_key(l) implies r.blocks.contains_key(
        r.heights[l],
    ) && r.blocks[r.heights[l]].height == l by {
        assert(m.heights.contains_key(l));
    }
    assert forall|t: Seq<char>| #[trigger] r.tx_block.contains_key(t) implies r.blocks.contains_key(
        r.tx_block[t],
    ) by {
        assert(m.tx_block.contains_key(t));
    }
    assert forall|h: Seq<char>| #[trigger] r.blocks.contains_key(h) implies r.blocks[h].block_hash@
        == h && r.block_txs[h].create_time == r.blocks[h].update_time by {
        assert(m.blocks.contains_key(h));
    }
    assert forall|h: Seq<char>| #[trigger]
        r.block_txs.contains_key(h) <==> r.blocks.contains_key(h) by {
        assert(m.block_txs.contains_key(h) <==> m.blocks.contains_key(h));
    }
}

} // verus!
