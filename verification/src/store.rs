//! In-memory authoritative mirror of the backend's best chain and mempool.
//!
//! The store holds one block per height, contiguously from a configured
//! start height (genesis or a checkpoint) to the tip, plus the mempool set
//! and the commitment-tree states captured at specific blocks. Only the
//! synchronizer mutates it; readers take value snapshots and are unaffected
//! by later writes.

use vstd::prelude::*;
use std::sync::Arc;
use crate::error::StoreError;
use crate::primitives::{BlockHash, TransactionHash, SerializedBlock, SerializedTransaction,
    BlockCommitmentTreeSize};

verus! {

/// One mirrored block: height, hash, raw bytes, ordered transaction ids and
/// the commitment-tree sizes as of this block. Immutable once stored;
/// superseded blocks are removed and reinserted, never mutated.
#[derive(Clone, Debug, PartialEq, Eq)]
pub struct BlockRecord {
    /// Height of the block.
    pub height: u32,
    /// Hash of the block.
    pub hash: BlockHash,
    /// Raw block bytes.
    pub data: SerializedBlock,
    /// Transaction ids in block order.
    pub txids: Vec<TransactionHash>,
    /// Note commitment tree sizes as of this block.
    pub trees: BlockCommitmentTreeSize,
}

/// The current best-chain head known to the mirror.
#[derive(Clone, Copy, Debug, PartialEq, Eq)]
pub struct ChainTip {
    /// Height of the head.
    pub height: u32,
    /// Hash of the head.
    pub hash: BlockHash,
}

/// One mempool transaction: id, raw bytes and insertion time.
#[derive(Clone, Debug, PartialEq, Eq)]
pub struct MempoolEntry {
    /// Transaction id.
    pub txid: TransactionHash,
    /// Raw transaction bytes.
    pub raw: SerializedTransaction,
    /// Unix seconds at insertion.
    pub inserted_at: u64,
}

/// Commitment-tree state captured at a specific block; only valid against
/// the block it was captured at.
#[derive(Clone, Debug, PartialEq, Eq)]
pub struct CommitmentTreeState {
    /// Height of the block the state was captured at.
    pub height: u32,
    /// Hash of that block.
    pub hash: BlockHash,
    /// Serialized Sapling final state.
    pub sapling: Vec<u8>,
    /// Serialized Orchard final state.
    pub orchard: Vec<u8>,
}

/// The block values behind a sequence of shared block references.
pub open spec fn deref_blocks(s: Seq<Arc<BlockRecord>>) -> Seq<BlockRecord> {
    s.map_values(|a: Arc<BlockRecord>| *a)
}

/// The txids of a sequence of mempool entries, in order.
pub open spec fn mempool_keys(s: Seq<MempoolEntry>) -> Seq<TransactionHash> {
    s.map_values(|e: MempoolEntry| e.txid)
}

/// Mathematical model of the store's observable state.
pub ghost struct StoreModel {
    /// First mirrored height.
    pub start_height: u32,
    /// Blocks in height order, contiguous from `start_height`.
    pub blocks: Seq<BlockRecord>,
    /// Mempool entries, unique by transaction id.
    pub mempool: Seq<MempoolEntry>,
    /// Captured treestates, unique by height.
    pub treestates: Seq<CommitmentTreeState>,
}

impl StoreModel {
    /// Height the next appended block must have.
    pub open spec fn next_height(self) -> int {
        self.start_height + self.blocks.len()
    }

    /// The chain head, if any block is stored.
    pub open spec fn tip(self) -> Option<ChainTip> {
        if self.blocks.len() == 0 {
            None
        } else {
            Some(ChainTip { height: self.blocks.last().height, hash: self.blocks.last().hash })
        }
    }

    /// The block stored at height `h`, if `h` is mirrored.
    pub open spec fn block_at(self, h: int) -> Option<BlockRecord> {
        if self.start_height <= h < self.next_height() {
            Some(self.blocks[h - self.start_height])
        } else {
            None
        }
    }

    /// Well-formedness: heights contiguous from the start height, at most
    /// one block per height, mempool unique by txid, treestates unique by
    /// height and anchored at stored blocks.
    pub open spec fn wf(self) -> bool {
        &&& self.next_height() <= u32::MAX + 1
        &&& forall|i: int|
            0 <= i < self.blocks.len() ==> (#[trigger] self.blocks[i]).height == self.start_height
                + i
        &&& forall|i: int, j: int|
            0 <= i < j < self.mempool.len() ==> (#[trigger] self.mempool[i]).txid != (
            #[trigger] self.mempool[j]).txid
        &&& forall|i: int|
            0 <= i < self.treestates.len() ==> (self.block_at(
                (#[trigger] self.treestates[i]).height as int,
            ) matches Some(b) && b.hash == self.treestates[i].hash)
        &&& forall|i: int, j: int|
            0 <= i < j < self.treestates.len() ==> (#[trigger] self.treestates[i]).height != (
            #[trigger] self.treestates[j]).height
    }
}

/// Result of [`ChainStateStore::write_block`] on the model: appending at the
/// next height extends the chain; anything else leaves the model unchanged.
pub open spec fn model_write_block(m: StoreModel, rec: BlockRecord) -> StoreModel {
    if rec.height == m.next_height() {
        StoreModel { blocks: m.blocks.push(rec), ..m }
    } else {
        m
    }
}

/// The treestates of `s` captured at or below `height`, in order.
pub open spec fn keep_treestates(s: Seq<CommitmentTreeState>, height: u32) -> Seq<
    CommitmentTreeState,
> {
    s.filter(|t: CommitmentTreeState| t.height <= height)
}

/// Result of [`ChainStateStore::rollback_to`] on the model: blocks strictly
/// above the target are removed, with the treestates captured at them.
pub open spec fn model_rollback(m: StoreModel, height: u32) -> StoreModel {
    StoreModel {
        blocks: m.blocks.subrange(0, height - m.start_height + 1),
        treestates: keep_treestates(m.treestates, height),
        ..m
    }
}

/// Applying the same block twice leaves the store in the state one
/// application produces: a duplicate delivery from the backend is a no-op.
pub proof fn lemma_write_block_idempotent(m: StoreModel, rec: BlockRecord)
    ensures
        model_write_block(model_write_block(m, rec), rec) == model_write_block(m, rec),
{
    let m1 = model_write_block(m, rec);
    if rec.height == m.next_height() {
        assert(m1.next_height() == m.next_height() + 1);
    }
}

/// In a well-formed store the tip is the most recently applied block and no
/// height is missing between the start height and the tip.
pub proof fn lemma_no_height_gaps(m: StoreModel)
    requires
        m.wf(),
        m.blocks.len() > 0,
    ensures
        m.tip() matches Some(t) && t.height == m.blocks.last().height,
        forall|h: int|
            m.start_height <= h <= m.tip().unwrap().height ==> (#[trigger] m.block_at(h)
                matches Some(b) && b.height == h),
{
}

/// The in-memory mirror. Single writer (the synchronizer); any number of
/// readers through value snapshots.
#[derive(Clone, Debug)]
pub struct ChainStateStore {
    /// First mirrored height (genesis or checkpoint).
    pub start_height: u32,
    /// Blocks in height order, individually shared with snapshots.
    pub blocks: Vec<Arc<BlockRecord>>,
    /// Mempool entries.
    pub mempool: Vec<MempoolEntry>,
    /// Captured treestates.
    pub treestates: Vec<CommitmentTreeState>,
    /// Version counter, bumped by every chain mutation.
    pub version: u64,
}

impl ChainStateStore {
    /// The store's observable state.
    pub open spec fn model(self) -> StoreModel {
        StoreModel {
            start_height: self.start_height,
            blocks: deref_blocks(self.blocks@),
            mempool: self.mempool@,
            treestates: self.treestates@,
        }
    }

    /// Well-formedness of the observable state.
    pub open spec fn wf(self) -> bool {
        self.model().wf()
    }

    /// An empty mirror starting at `start_height`.
    pub fn new(start_height: u32) -> (r: ChainStateStore)
        ensures
            r.wf(),
            r.start_height == start_height,
            r.model().blocks.len() == 0,
            r.model().mempool.len() == 0,
            r.model().treestates.len() == 0,
    {
        ChainStateStore {
            start_height,
            blocks: Vec::new(),
            mempool: Vec::new(),
            treestates: Vec::new(),
            version: 0,
        }
    }

    /// The current chain head, or `None` before the first block.
    pub fn get_tip(&self) -> (r: Option<ChainTip>)
        ensures
            r == self.model().tip(),
    {
        if self.blocks.len() == 0 {
            None
        } else {
            let b: &BlockRecord = &self.blocks[self.blocks.len() - 1];
            proof {
                assert(self.model().blocks.last() == *b);
            }
            Some(ChainTip { height: b.height, hash: b.hash })
        }
    }

    /// The block at `height`, or `None` if it is not mirrored.
    pub fn get_block(&self, height: u32) -> (r: Option<&BlockRecord>)
        requires
            self.wf(),
        ensures
            match r {
                Some(b) => self.model().block_at(height as int) == Some(*b),
                None => self.model().block_at(height as int) is None,
            },
    {
        if height < self.start_height {
            return None;
        }
        let idx = (height - self.start_height) as usize;
        if idx >= self.blocks.len() {
            return None;
        }
        let b: &BlockRecord = &self.blocks[idx];
        proof {
            assert(self.model().blocks[height - self.start_height] == *b);
        }
        Some(b)
    }

    /// Appends a block at the next height; accepts a duplicate of a stored
    /// block as a no-op; rejects anything else. On `Ok(true)` the new tip is
    /// the written block.
    pub fn write_block(&mut self, rec: Arc<BlockRecord>) -> (r: Result<bool, StoreError>)
        requires
            old(self).wf(),
        ensures
            final(self).wf(),
            final(self).start_height == old(self).start_height,
            final(self).model().mempool == old(self).model().mempool,
            final(self).model().treestates == old(self).model().treestates,
            match r {
                Ok(appended) => {
                    &&& final(self).model() == model_write_block(old(self).model(), *rec)
                    &&& appended <==> rec.height == old(self).model().next_height()
                    &&& appended ==> final(self).model().tip() == Some(
                        ChainTip { height: rec.height, hash: rec.hash },
                    )
                    &&& !appended ==> (old(self).model().block_at(rec.height as int)
                        matches Some(b) && b.hash == rec.hash && *final(self) == *old(self))
                },
                Err(e) => {
                    &&& *final(self) == *old(self)
                    &&& e == StoreError::NonContiguous ==> rec.height != old(
                        self,
                    ).model().next_height() && old(self).model().block_at(rec.height as int) is None
                    &&& e == StoreError::HashMismatch ==> (old(self).model().block_at(
                        rec.height as int,
                    ) matches Some(b) && b.hash != rec.hash)
                    &&& (e == StoreError::NonContiguous || e == StoreError::HashMismatch)
                },
            },
    {
        let next_low = self.start_height as u64 + self.blocks.len() as u64;
        if rec.height as u64 == next_low {
            proof {
                assert(rec.height == old(self).model().next_height());
            }
            let ghost grec = rec;
            self.blocks.push(rec);
            self.version = self.version.wrapping_add(1);
            proof {
                let m0 = old(self).model();
                let m1 = self.model();
                assert(m1.blocks =~= m0.blocks.push(*grec));
                assert forall|i: int, j: int| 0 <= i < j < m1.mempool.len() implies (
                #[trigger] m1.mempool[i]).txid != (#[trigger] m1.mempool[j]).txid by {
                    assert(m0.mempool[i].txid != m0.mempool[j].txid);
                }
                assert forall|i: int| 0 <= i < m1.blocks.len() implies (#[trigger] m1.blocks[i]).height
                    == m1.start_height + i by {
                    if i < m0.blocks.len() {
                        assert(m1.blocks[i] == m0.blocks[i]);
                    }
                }
                assert forall|i: int| 0 <= i < m1.treestates.len() implies (m1.block_at(
                    (#[trigger] m1.treestates[i]).height as int,
                ) matches Some(b) && b.hash == m1.treestates[i].hash) by {
                    assert(m0.treestates[i] == m1.treestates[i]);
                    let h = m1.treestates[i].height as int;
                    assert(m0.block_at(h) matches Some(b) && b.hash == m0.treestates[i].hash);
                    assert(m0.start_height <= h < m0.next_height());
                    assert(m1.blocks[h - m1.start_height] == m0.blocks[h - m0.start_height]);
                }
            }
            return Ok(true);
        }
        if rec.height >= self.start_height {
            let idx_low = rec.height as u64 - self.start_height as u64;
            if idx_low < self.blocks.len() as u64 {
                let idx = idx_low as usize;
                let b: &BlockRecord = &self.blocks[idx];
                if crate::primitives::block_hash_eq(&b.hash, &rec.hash) {
                    proof {
                        assert(old(self).model().blocks[rec.height - old(self).start_height]
                            == *b);
                    }
                    return Ok(false);
                }
                proof {
                    assert(old(self).model().blocks[rec.height - old(self).start_height] == *b);
                }
                return Err(StoreError::HashMismatch);
            }
        }
        Err(StoreError::NonContiguous)
    }

    /// Rolls the chain back to `(height, hash)`: removes every block
    /// strictly above `height`, and the treestates captured at them. Fails
    /// without mutation if the target is not a stored block.
    pub fn rollback_to(&mut self, height: u32, hash: BlockHash) -> (r: Result<(), StoreError>)
        requires
            old(self).wf(),
        ensures
            final(self).wf(),
            final(self).start_height == old(self).start_height,
            final(self).model().mempool == old(self).model().mempool,
            match r {
                Ok(_) => {
                    &&& (old(self).model().block_at(height as int) matches Some(b) && b.hash
                        == hash)
                    &&& final(self).model() == model_rollback(old(self).model(), height)
                    &&& final(self).model().tip() == Some(ChainTip { height, hash })
                },
                Err(e) => {
                    &&& *final(self) == *old(self)
                    &&& e == StoreError::UnknownRollbackTarget
                    &&& !(old(self).model().block_at(height as int) matches Some(b) && b.hash
                        == hash)
                },
            },
    {
        if height < self.start_height {
            return Err(StoreError::UnknownRollbackTarget);
        }
        let idx_low = height as u64 - self.start_height as u64;
        if idx_low >= self.blocks.len() as u64 {
            return Err(StoreError::UnknownRollbackTarget);
        }
        let idx = idx_low as usize;
        let b0: &BlockRecord = &self.blocks[idx];
        proof {
            assert(old(self).model().blocks[height - old(self).start_height] == *b0);
        }
        if !crate::primitives::block_hash_eq(&b0.hash, &hash) {
            return Err(StoreError::UnknownRollbackTarget);
        }
        self.blocks.truncate(idx + 1);
        let ghost orig = self.treestates@;
        let ghost pred = |t: CommitmentTreeState| t.height <= height;
        let mut i: usize = 0;
        let ghost mut p: int = 0;
        proof {
            assert(orig.subrange(0, 0) =~= Seq::<CommitmentTreeState>::empty());
            reveal(Seq::filter);
        }
        while i < self.treestates.len()
            invariant
                0 <= p <= orig.len(),
                self.treestates@ == keep_treestates(orig.subrange(0, p), height) + orig.subrange(
                    p,
                    orig.len() as int,
                ),
                i == keep_treestates(orig.subrange(0, p), height).len(),
                self.start_height == old(self).start_height,
                self.blocks@ == old(self).blocks@.subrange(
                    0,
                    height - old(self).start_height + 1,
                ),
                self.model().blocks =~= old(self).model().blocks.subrange(
                    0,
                    height - old(self).start_height + 1,
                ),
                self.mempool@ == old(self).mempool@,
                self.version == old(self).version,
                forall|k: int|
                    0 <= k < i ==> (#[trigger] self.treestates@[k]).height <= height,
                forall|k: int|
                    0 <= k < self.treestates@.len() ==> (old(self).model().block_at(
                        (#[trigger] self.treestates@[k]).height as int,
                    ) matches Some(b) && b.hash == self.treestates@[k].hash),
                forall|k: int, l: int|
                    0 <= k < l < self.treestates@.len() ==> (#[trigger] self.treestates@[k]).height
                        != (#[trigger] self.treestates@[l]).height,
            decreases orig.len() - p,
        {
            proof {
                assert(self.treestates@[i as int] == orig[p]);
                assert(orig.subrange(0, p + 1).drop_last() =~= orig.subrange(0, p));
                assert(orig.subrange(0, p + 1).last() == orig[p]);
                reveal(Seq::filter);
            }
            let keep = self.treestates[i].height <= height;
            if keep {
                i = i + 1;
            } else {
                self.treestates.remove(i);
                proof {
                    assert(self.treestates@ =~= keep_treestates(orig.subrange(0, p + 1), height)
                        + orig.subrange(p + 1, orig.len() as int));
                }
            }
            proof {
                p = p + 1;
                assert(self.treestates@ =~= keep_treestates(orig.subrange(0, p), height)
                    + orig.subrange(p, orig.len() as int));
            }
        }
        proof {
            assert(orig.subrange(0, p) =~= orig);
            assert(orig.subrange(p, orig.len() as int) =~= Seq::<CommitmentTreeState>::empty());
            assert(self.treestates@ =~= keep_treestates(orig, height));
        }
        self.version = self.version.wrapping_add(1);
        proof {
            let m0 = old(self).model();
            let m1 = self.model();
            assert(m1.blocks =~= m0.blocks.subrange(0, height - m0.start_height + 1));
            assert forall|i: int, j: int| 0 <= i < j < m1.mempool.len() implies (
            #[trigger] m1.mempool[i]).txid != (#[trigger] m1.mempool[j]).txid by {
                assert(m0.mempool[i].txid != m0.mempool[j].txid);
            }
            assert(m1.blocks == m0.blocks.subrange(0, height - m0.start_height + 1));
            assert(m1.blocks.len() == height - m0.start_height + 1);
            assert(m1.blocks.last() == m0.blocks[height - m0.start_height]);
            assert forall|k: int| 0 <= k < m1.treestates.len() implies (m1.block_at(
                (#[trigger] m1.treestates[k]).height as int,
            ) matches Some(b) && b.hash == m1.treestates[k].hash) by {
                let h = m1.treestates[k].height as int;
                assert(m0.block_at(h) matches Some(b) && b.hash == m1.treestates[k].hash);
                assert(m1.treestates[k].height <= height);
                assert(m1.blocks[h - m1.start_height] == m0.blocks[h - m0.start_height]);
            }
        }
        Ok(())
    }
}


impl ChainStateStore {
    /// Adds a mempool entry; an entry whose txid is already present is a
    /// no-op, keeping the mempool a set keyed by txid.
    #[verifier::loop_isolation(false)]
    pub fn mempool_add(&mut self, e: MempoolEntry) -> (r: bool)
        requires
            old(self).wf(),
        ensures
            final(self).wf(),
            final(self).start_height == old(self).start_height,
            final(self).model().blocks == old(self).model().blocks,
            final(self).model().treestates == old(self).model().treestates,
            final(self).version == old(self).version,
            r <==> !(exists|i: int|
                0 <= i < old(self).model().mempool.len() && (#[trigger] old(
                    self).model().mempool[i]).txid == e.txid),
            r ==> final(self).model().mempool == old(self).model().mempool.push(e),
            !r ==> *final(self) == *old(self),
    {
        let n = self.mempool.len();
        let mut i: usize = 0;
        while i < n
            invariant
                i <= n,
                n == self.mempool@.len(),
                *self == *old(self),
                forall|k: int| 0 <= k < i ==> (#[trigger] self.mempool@[k]).txid != e.txid,
            decreases n - i,
        {
            if crate::primitives::txid_eq(&self.mempool[i].txid, &e.txid) {
                proof {
                    assert((old(self).model().mempool[i as int]).txid == e.txid);
                }
                return false;
            }
            i = i + 1;
        }
        let ghost ge = e;
        self.mempool.push(e);
        proof {
            let m0 = old(self).model().mempool;
            let m1 = self.model().mempool;
            assert(m1 == m0.push(ge));
            assert forall|k: int, l: int| 0 <= k < l < m1.len() implies (#[trigger] m1[k]).txid
                != (#[trigger] m1[l]).txid by {
                if l < m0.len() {
                    assert(m1[k] == m0[k]);
                    assert(m1[l] == m0[l]);
                } else {
                    assert(m1[l] == ge);
                    assert(m1[k] == m0[k]);
                }
            }
        }
        true
    }

    /// Removes the mempool entry with the given txid, if present; returns
    /// whether one was removed. Afterwards no entry has that txid.
    #[verifier::loop_isolation(false)]
    pub fn mempool_remove(&mut self, txid: &TransactionHash) -> (r: bool)
        requires
            old(self).wf(),
        ensures
            final(self).wf(),
            final(self).start_height == old(self).start_height,
            final(self).model().blocks == old(self).model().blocks,
            final(self).model().treestates == old(self).model().treestates,
            final(self).version == old(self).version,
            r <==> (exists|i: int|
                0 <= i < old(self).model().mempool.len() && (#[trigger] old(
                    self).model().mempool[i]).txid == *txid),
            !r ==> *final(self) == *old(self),
            r ==> (exists|i: int|
                {
                    &&& 0 <= i < old(self).model().mempool.len()
                    &&& (#[trigger] old(self).model().mempool[i]).txid == *txid
                    &&& final(self).model().mempool == old(self).model().mempool.remove(i)
                }),
            forall|k: int|
                0 <= k < final(self).model().mempool.len() ==> (#[trigger] final(
                    self).model().mempool[k]).txid != *txid,
    {
        let n = self.mempool.len();
        let mut i: usize = 0;
        while i < n
            invariant
                i <= n,
                n == self.mempool@.len(),
                *self == *old(self),
                forall|k: int| 0 <= k < i ==> (#[trigger] self.mempool@[k]).txid != *txid,
            decreases n - i,
        {
            if crate::primitives::txid_eq(&self.mempool[i].txid, txid) {
                proof {
                    assert((old(self).model().mempool[i as int]).txid == *txid);
                }
                self.mempool.remove(i);
                proof {
                    let m0 = old(self).model().mempool;
                    let m1 = self.model().mempool;
                    assert(m1 == m0.remove(i as int));
                    assert forall|k: int| 0 <= k < m1.len() implies (#[trigger] m1[k]).txid
                        != *txid by {
                        if k < i {
                            assert(m1[k] == m0[k]);
                        } else {
                            assert(m1[k] == m0[k + 1]);
                        }
                    }
                    assert forall|k: int, l: int| 0 <= k < l < m1.len() implies (
                    #[trigger] m1[k]).txid != (#[trigger] m1[l]).txid by {
                        let k0: int = if k < i { k } else { k + 1 };
                        let l0: int = if l < i { l } else { l + 1 };
                        assert(m1[k] == m0[k0]);
                        assert(m1[l] == m0[l0]);
                    }
                }
                return true;
            }
            i = i + 1;
        }
        false
    }

    /// The txids of the mempool entries, in insertion order: the mempool
    /// digest the synchronizer diffs against.
    #[verifier::loop_isolation(false)]
    pub fn mempool_txids(&self) -> (r: Vec<TransactionHash>)
        ensures
            r@ == mempool_keys(self.model().mempool),
    {
        let mut r: Vec<TransactionHash> = Vec::new();
        let mut i: usize = 0;
        while i < self.mempool.len()
            invariant
                i <= self.mempool@.len(),
                r@ == mempool_keys(self.mempool@.subrange(0, i as int)),
            decreases self.mempool@.len() - i,
        {
            r.push(self.mempool[i].txid);
            i = i + 1;
            proof {
                assert(r@ =~= mempool_keys(self.mempool@.subrange(0, i as int)));
            }
        }
        proof {
            assert(self.mempool@.subrange(0, self.mempool@.len() as int) =~= self.mempool@);
        }
        r
    }

    /// The mempool entry with the given txid, if present.
    #[verifier::loop_isolation(false)]
    pub fn get_mempool_entry(&self, txid: &TransactionHash) -> (r: Option<&MempoolEntry>)
        ensures
            match r {
                Some(e) => e.txid == *txid && self.model().mempool.contains(*e),
                None => forall|i: int|
                    0 <= i < self.model().mempool.len() ==> (#[trigger] self.model().mempool[i])
                        .txid != *txid,
            },
    {
        let n = self.mempool.len();
        let mut i: usize = 0;
        while i < n
            invariant
                i <= n,
                n == self.mempool@.len(),
                forall|k: int| 0 <= k < i ==> (#[trigger] self.mempool@[k]).txid != *txid,
            decreases n - i,
        {
            if crate::primitives::txid_eq(&self.mempool[i].txid, txid) {
                return Some(&self.mempool[i]);
            }
            i = i + 1;
        }
        None
    }

    /// Records the treestate captured at a stored block. Fails without
    /// mutation if the (height, hash) pair is not a stored block or a
    /// treestate for that height is already recorded.
    #[verifier::loop_isolation(false)]
    pub fn put_treestate(&mut self, t: CommitmentTreeState) -> (r: Result<(), StoreError>)
        requires
            old(self).wf(),
        ensures
            final(self).wf(),
            final(self).start_height == old(self).start_height,
            final(self).model().blocks == old(self).model().blocks,
            final(self).model().mempool == old(self).model().mempool,
            final(self).version == old(self).version,
            match r {
                Ok(_) => {
                    &&& (old(self).model().block_at(t.height as int) matches Some(b) && b.hash
                        == t.hash)
                    &&& final(self).model().treestates == old(self).model().treestates.push(t)
                },
                Err(e) => {
                    &&& *final(self) == *old(self)
                    &&& e == StoreError::InvalidTreestate
                    &&& !(old(self).model().block_at(t.height as int) matches Some(b) && b.hash
                        == t.hash) || (exists|i: int|
                        0 <= i < old(self).model().treestates.len() && (#[trigger] old(
                        self).model().treestates[i]).height == t.height)
                },
            },
    {
        if t.height < self.start_height {
            return Err(StoreError::InvalidTreestate);
        }
        let idx_low = t.height as u64 - self.start_height as u64;
        if idx_low >= self.blocks.len() as u64 {
            return Err(StoreError::InvalidTreestate);
        }
        let b: &BlockRecord = &self.blocks[idx_low as usize];
        proof {
            assert(self.model().blocks[t.height - self.start_height] == *b);
        }
        if !crate::primitives::block_hash_eq(&b.hash, &t.hash) {
            return Err(StoreError::InvalidTreestate);
        }
        let n = self.treestates.len();
        let mut i: usize = 0;
        while i < n
            invariant
                i <= n,
                n == self.treestates@.len(),
                *self == *old(self),
                forall|k: int| 0 <= k < i ==> (#[trigger] self.treestates@[k]).height != t.height,
            decreases n - i,
        {
            if self.treestates[i].height == t.height {
                return Err(StoreError::InvalidTreestate);
            }
            i = i + 1;
        }
        let ghost gt = t;
        self.treestates.push(t);
        proof {
            let m0 = old(self).model();
            let m1 = self.model();
            assert(m1.treestates == m0.treestates.push(gt));
            assert(m1.blocks == m0.blocks);
            assert forall|k: int| 0 <= k < m1.treestates.len() implies (m1.block_at(
                (#[trigger] m1.treestates[k]).height as int,
            ) matches Some(b) && b.hash == m1.treestates[k].hash) by {
                if k < m0.treestates.len() {
                    assert(m1.treestates[k] == m0.treestates[k]);
                    assert(m0.block_at(m0.treestates[k].height as int) matches Some(b) && b.hash
                        == m0.treestates[k].hash);
                } else {
                    assert(m1.treestates[k] == gt);
                }
            }
            assert forall|k: int, l: int| 0 <= k < l < m1.treestates.len() implies (
            #[trigger] m1.treestates[k]).height != (#[trigger] m1.treestates[l]).height by {
                if l < m0.treestates.len() {
                    assert(m1.treestates[k] == m0.treestates[k]);
                    assert(m1.treestates[l] == m0.treestates[l]);
                } else {
                    assert(m1.treestates[l] == gt);
                    assert(m1.treestates[k] == m0.treestates[k]);
                }
            }
            assert forall|k: int, l: int| 0 <= k < l < m1.mempool.len() implies (
            #[trigger] m1.mempool[k]).txid != (#[trigger] m1.mempool[l]).txid by {
                assert(m0.mempool[k].txid != m0.mempool[l].txid);
            }
        }
        Ok(())
    }

    /// The treestate captured at `height`, if one is recorded.
    #[verifier::loop_isolation(false)]
    pub fn get_treestate(&self, height: u32) -> (r: Option<&CommitmentTreeState>)
        ensures
            match r {
                Some(t) => t.height == height && self.model().treestates.contains(*t),
                None => forall|i: int|
                    0 <= i < self.model().treestates.len() ==> (#[trigger] self.model()
                        .treestates[i]).height != height,
            },
    {
        let n = self.treestates.len();
        let mut i: usize = 0;
        while i < n
            invariant
                i <= n,
                n == self.treestates@.len(),
                forall|k: int| 0 <= k < i ==> (#[trigger] self.treestates@[k]).height != height,
            decreases n - i,
        {
            if self.treestates[i].height == height {
                return Some(&self.treestates[i]);
            }
            i = i + 1;
        }
        None
    }

    /// Takes a consistent point-in-time view of the chain. The snapshot is
    /// a value of its own: later store mutations do not affect it.
    #[verifier::loop_isolation(false)]
    pub fn read_snapshot(&self) -> (s: Snapshot)
        ensures
            s.start_height == self.start_height,
            s.chain() == self.model().blocks,
            s.version == self.version,
    {
        let mut blocks: Vec<Arc<BlockRecord>> = Vec::new();
        let mut i: usize = 0;
        while i < self.blocks.len()
            invariant
                i <= self.blocks@.len(),
                blocks@ == self.blocks@.subrange(0, i as int),
            decreases self.blocks@.len() - i,
        {
            blocks.push(crate::util::arc_clone(&self.blocks[i]));
            i = i + 1;
            proof {
                assert(blocks@ =~= self.blocks@.subrange(0, i as int));
            }
        }
        proof {
            assert(self.blocks@.subrange(0, self.blocks@.len() as int) =~= self.blocks@);
        }
        Snapshot { start_height: self.start_height, blocks, version: self.version }
    }
}

/// An immutable, consistent view of the chain at one store version.
#[derive(Clone, Debug)]
pub struct Snapshot {
    /// First mirrored height at capture time.
    pub start_height: u32,
    /// The chain at capture time, height order, shared with the store.
    pub blocks: Vec<Arc<BlockRecord>>,
    /// Store version at capture time.
    pub version: u64,
}

impl Snapshot {
    /// The chain this snapshot reports.
    pub open spec fn chain(self) -> Seq<BlockRecord> {
        deref_blocks(self.blocks@)
    }

    /// The snapshot's chain as a store model (chain only).
    pub open spec fn as_model(self) -> StoreModel {
        StoreModel {
            start_height: self.start_height,
            blocks: self.chain(),
            mempool: Seq::<MempoolEntry>::empty(),
            treestates: Seq::<CommitmentTreeState>::empty(),
        }
    }

    /// The chain head this snapshot reports.
    pub fn get_tip(&self) -> (r: Option<ChainTip>)
        ensures
            r == self.as_model().tip(),
    {
        if self.blocks.len() == 0 {
            None
        } else {
            let b: &BlockRecord = &self.blocks[self.blocks.len() - 1];
            proof {
                assert(self.as_model().blocks.last() == *b);
            }
            Some(ChainTip { height: b.height, hash: b.hash })
        }
    }

    /// The block this snapshot reports at `height`.
    pub fn get_block(&self, height: u32) -> (r: Option<&BlockRecord>)
        requires
            self.as_model().wf(),
        ensures
            match r {
                Some(b) => self.as_model().block_at(height as int) == Some(*b),
                None => self.as_model().block_at(height as int) is None,
            },
    {
        if height < self.start_height {
            return None;
        }
        let idx = (height - self.start_height) as usize;
        if idx >= self.blocks.len() {
            return None;
        }
        let b: &BlockRecord = &self.blocks[idx];
        proof {
            assert(self.as_model().blocks[height - self.start_height] == *b);
        }
        Some(b)
    }
}

} // verus!
