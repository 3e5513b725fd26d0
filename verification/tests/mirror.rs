//! Tests of the chain-state store, the synchronizer and the subscriber hub.

use std::sync::Arc;
use zaino_core::error::{BackendError, ReorgError, StoreError};
use zaino_core::client::{next_retry, RetryDecision, RetryPolicy};
use zaino_core::hub::SubscriptionHub;
use zaino_core::interface::HealthTracker;
use zaino_core::primitives::{BlockCommitmentTreeSize, BlockHash, SerializedBlock,
    SerializedTransaction, TransactionHash};
use zaino_core::store::{BlockRecord, ChainStateStore, CommitmentTreeState, MempoolEntry};
use zaino_core::sync::{apply_backend_poll, apply_chain_events, diff_mempool, plan_chain_sync,
    sync_step, ChangeEvent, SyncOutcome, SyncState};

fn block(height: u32, tag: u8) -> Arc<BlockRecord> {
    Arc::new(BlockRecord {
        height,
        hash: BlockHash([tag; 32]),
        data: SerializedBlock(vec![tag]),
        txids: Vec::new(),
        trees: BlockCommitmentTreeSize { sapling: 0, orchard: 0 },
    })
}

fn entry(tag: u8) -> MempoolEntry {
    MempoolEntry {
        txid: TransactionHash([tag; 32]),
        raw: SerializedTransaction(vec![tag]),
        inserted_at: 0,
    }
}

#[test]
fn tip_follows_applied_blocks_without_gaps() {
    let mut store = ChainStateStore::new(10);
    assert!(store.get_tip().is_none());
    assert_eq!(store.write_block(block(10, 1)), Ok(true));
    assert_eq!(store.write_block(block(11, 2)), Ok(true));
    assert_eq!(store.write_block(block(12, 3)), Ok(true));
    let tip = store.get_tip().unwrap();
    assert_eq!(tip.height, 12);
    assert_eq!(tip.hash, BlockHash([3; 32]));
    for h in 10..=12u32 {
        assert_eq!(store.get_block(h).unwrap().height, h);
    }
    assert!(store.get_block(9).is_none());
    assert!(store.get_block(13).is_none());
}

#[test]
fn duplicate_block_is_a_no_op() {
    let mut store = ChainStateStore::new(0);
    assert_eq!(store.write_block(block(0, 1)), Ok(true));
    let tip_before = store.get_tip().unwrap();
    // Same height and hash again: duplicate delivery from the backend.
    assert_eq!(store.write_block(block(0, 1)), Ok(false));
    assert_eq!(store.get_tip().unwrap(), tip_before);
    assert_eq!(store.blocks.len(), 1);
}

#[test]
fn write_block_rejects_gaps_and_conflicts() {
    let mut store = ChainStateStore::new(5);
    assert_eq!(store.write_block(block(5, 1)), Ok(true));
    assert_eq!(store.write_block(block(7, 2)), Err(StoreError::NonContiguous));
    assert_eq!(store.write_block(block(5, 9)), Err(StoreError::HashMismatch));
    assert_eq!(store.get_tip().unwrap().height, 5);
}

#[test]
fn rollback_removes_blocks_above_target() {
    let mut store = ChainStateStore::new(10);
    store.write_block(block(10, 1)).unwrap();
    store.write_block(block(11, 2)).unwrap();
    store.write_block(block(12, 3)).unwrap();
    assert_eq!(
        store.rollback_to(11, BlockHash([9; 32])),
        Err(StoreError::UnknownRollbackTarget)
    );
    assert_eq!(store.rollback_to(11, BlockHash([2; 32])), Ok(()));
    assert_eq!(store.get_tip().unwrap().height, 11);
    assert!(store.get_block(12).is_none());
}

#[test]
fn reorg_plan_and_apply() {
    // Local chain [A@10, B@11, C@12]; backend [A@10, B'@11, C'@12, D'@13].
    let mut store = ChainStateStore::new(10);
    store.write_block(block(10, 0xA1)).unwrap();
    store.write_block(block(11, 0xB1)).unwrap();
    store.write_block(block(12, 0xC1)).unwrap();
    let backend = vec![block(10, 0xA1), block(11, 0xB2), block(12, 0xC2), block(13, 0xD2)];
    let events = plan_chain_sync(&store, &backend).unwrap();
    assert_eq!(events.len(), 4);
    assert_eq!(events[0], ChangeEvent::Rollback(10, BlockHash([0xA1; 32])));
    assert_eq!(events[1], ChangeEvent::NewBlock(backend[1].clone()));
    assert_eq!(events[2], ChangeEvent::NewBlock(backend[2].clone()));
    assert_eq!(events[3], ChangeEvent::NewBlock(backend[3].clone()));
    assert_eq!(apply_chain_events(&mut store, &events), Ok(()));
    assert_eq!(store.get_block(11).unwrap().hash, BlockHash([0xB2; 32]));
    assert_eq!(store.get_tip().unwrap().height, 13);
}

#[test]
fn pure_extension_has_no_rollback() {
    let mut store = ChainStateStore::new(10);
    store.write_block(block(10, 0xA1)).unwrap();
    let backend = vec![block(10, 0xA1), block(11, 0xB1)];
    let events = plan_chain_sync(&store, &backend).unwrap();
    assert_eq!(events, vec![ChangeEvent::NewBlock(backend[1].clone())]);
    apply_chain_events(&mut store, &events).unwrap();
    assert_eq!(store.get_tip().unwrap().height, 11);
}

#[test]
fn no_common_ancestor_is_a_reorg_error() {
    let mut store = ChainStateStore::new(10);
    store.write_block(block(10, 0xA1)).unwrap();
    store.write_block(block(11, 0xB1)).unwrap();
    let backend = vec![block(10, 0xEE), block(11, 0xEF)];
    assert_eq!(plan_chain_sync(&store, &backend), Err(ReorgError::AncestorNotFound));
}

#[test]
fn snapshot_is_unaffected_by_reorg() {
    let mut store = ChainStateStore::new(10);
    store.write_block(block(10, 0xA1)).unwrap();
    store.write_block(block(11, 0xB1)).unwrap();
    let before = store.read_snapshot();
    // Reorg: roll back to 10 and apply a competing branch.
    store.rollback_to(10, BlockHash([0xA1; 32])).unwrap();
    store.write_block(block(11, 0xB2)).unwrap();
    // The old snapshot still reports the pre-reorg chain.
    assert_eq!(before.get_block(11).unwrap().hash, BlockHash([0xB1; 32]));
    assert_eq!(before.get_tip().unwrap().height, 11);
    // A snapshot taken now reflects the post-reorg chain.
    let after = store.read_snapshot();
    assert_eq!(after.get_block(11).unwrap().hash, BlockHash([0xB2; 32]));
    assert_ne!(before.version, after.version);
}

#[test]
fn mempool_is_a_set_keyed_by_txid() {
    let mut store = ChainStateStore::new(0);
    assert!(store.mempool_add(entry(1)));
    assert!(store.mempool_add(entry(2)));
    assert!(!store.mempool_add(entry(1)));
    assert_eq!(store.mempool_txids().len(), 2);
    assert!(store.get_mempool_entry(&TransactionHash([2; 32])).is_some());
    assert!(store.mempool_remove(&TransactionHash([1; 32])));
    assert!(!store.mempool_remove(&TransactionHash([1; 32])));
    assert!(store.get_mempool_entry(&TransactionHash([1; 32])).is_none());
}

#[test]
fn mempool_diff_by_set_difference() {
    let prev = vec![TransactionHash([1; 32]), TransactionHash([2; 32])];
    let curr = vec![TransactionHash([2; 32]), TransactionHash([3; 32])];
    let (adds, removes) = diff_mempool(&prev, &curr);
    assert_eq!(adds, vec![TransactionHash([3; 32])]);
    assert_eq!(removes, vec![TransactionHash([1; 32])]);
}

#[test]
fn treestate_anchored_at_stored_block() {
    let mut store = ChainStateStore::new(10);
    store.write_block(block(10, 1)).unwrap();
    let good = CommitmentTreeState {
        height: 10,
        hash: BlockHash([1; 32]),
        sapling: vec![1],
        orchard: vec![2],
    };
    assert_eq!(store.put_treestate(good.clone()), Ok(()));
    assert_eq!(store.get_treestate(10).unwrap(), &good);
    // Wrong hash, unknown height, duplicate height: all rejected.
    let bad = CommitmentTreeState { hash: BlockHash([9; 32]), ..good.clone() };
    assert_eq!(store.put_treestate(bad), Err(StoreError::InvalidTreestate));
    let unknown = CommitmentTreeState { height: 11, ..good.clone() };
    assert_eq!(store.put_treestate(unknown), Err(StoreError::InvalidTreestate));
    assert_eq!(store.put_treestate(good), Err(StoreError::InvalidTreestate));
    assert!(store.get_treestate(11).is_none());
}

#[test]
fn lagging_subscriber_is_evicted_and_others_deliver() {
    let mut hub = SubscriptionHub::new(2);
    let lagging = hub.subscribe();
    let healthy = hub.subscribe();
    let e1 = ChangeEvent::MempoolAdd(TransactionHash([1; 32]));
    let e2 = ChangeEvent::MempoolAdd(TransactionHash([2; 32]));
    let e3 = ChangeEvent::MempoolRemove(TransactionHash([1; 32]));
    hub.publish(&e1);
    hub.publish(&e2);
    // The healthy subscriber drains; events arrive in publish order.
    assert_eq!(hub.drain(healthy).unwrap(), vec![e1.clone(), e2.clone()]);
    // The lagging one never drains: its queue is full, the next publish
    // evicts it without delaying the healthy one.
    hub.publish(&e3);
    assert_eq!(hub.evicted, vec![lagging]);
    assert!(hub.drain(lagging).is_none());
    assert_eq!(hub.drain(healthy).unwrap(), vec![e3]);
}

#[test]
fn unsubscribe_removes_handle() {
    let mut hub = SubscriptionHub::new(4);
    let a = hub.subscribe();
    let b = hub.subscribe();
    assert!(hub.unsubscribe(a));
    assert!(!hub.unsubscribe(a));
    assert!(hub.drain(a).is_none());
    assert!(hub.drain(b).is_some());
}

#[test]
fn retry_policy_decisions() {
    let p = RetryPolicy {
        max_attempts: 4,
        base_delay_ms: 100,
        max_delay_ms: 500,
        timeout_ms: 1000,
    };
    assert_eq!(next_retry(&p, 1, &BackendError::Transient), RetryDecision::RetryAfter(100));
    assert_eq!(next_retry(&p, 2, &BackendError::StillSyncing), RetryDecision::RetryAfter(200));
    assert_eq!(next_retry(&p, 3, &BackendError::Transient), RetryDecision::RetryAfter(400));
    assert_eq!(next_retry(&p, 4, &BackendError::Transient), RetryDecision::GiveUp);
    assert_eq!(
        next_retry(&p, 1, &BackendError::Decode(zaino_core::error::DecodeError::MalformedHex)),
        RetryDecision::GiveUp
    );
    assert_eq!(next_retry(&p, 1, &BackendError::Rejected), RetryDecision::GiveUp);
    // The delay is capped by the policy's bound.
    let long = RetryPolicy { max_attempts: 30, ..p };
    assert_eq!(next_retry(&long, 20, &BackendError::Transient), RetryDecision::RetryAfter(500));
}

#[test]
fn health_staleness_and_degradation() {
    let mut h = HealthTracker::new(3, 1000);
    assert_eq!(h.staleness_seconds(1010), 10);
    assert_eq!(h.staleness_seconds(990), 0);
    assert!(!h.is_degraded());
    h.record_failure();
    h.record_failure();
    assert!(!h.is_degraded());
    h.record_failure();
    assert!(h.is_degraded());
    h.record_success(2000);
    assert!(!h.is_degraded());
    assert_eq!(h.staleness_seconds(2005), 5);
}

#[test]
fn synchronizer_state_machine_cycle() {
    let s = SyncState::Idle;
    let s = sync_step(s, SyncOutcome::TimerFired);
    assert_eq!(s, SyncState::Polling);
    let s = sync_step(s, SyncOutcome::PollSucceeded);
    assert_eq!(s, SyncState::Diffing);
    let s = sync_step(s, SyncOutcome::DiffComputed);
    assert_eq!(s, SyncState::Applying);
    let s = sync_step(s, SyncOutcome::ApplyCompleted);
    assert_eq!(s, SyncState::Idle);
    // Failures enter recovery; recovery retries the poll; no store
    // mutation is modeled in recovery.
    let r = sync_step(SyncState::Polling, SyncOutcome::PollFailed);
    assert_eq!(r, SyncState::Recovering);
    assert_eq!(sync_step(r, SyncOutcome::TimerFired), SyncState::Polling);
    assert_eq!(
        sync_step(SyncState::Diffing, SyncOutcome::DiffFailed),
        SyncState::Recovering
    );
    assert_eq!(
        sync_step(SyncState::Applying, SyncOutcome::ApplyFailed),
        SyncState::Recovering
    );
    // An outcome that cannot arise in a state leaves it unchanged.
    assert_eq!(sync_step(SyncState::Idle, SyncOutcome::ApplyFailed), SyncState::Idle);
}

#[test]
fn backend_poll_reconciles_chain_and_mempool() {
    let mut store = ChainStateStore::new(10);
    let mut hub = SubscriptionHub::new(16);
    let reader = hub.subscribe();
    // Initial chain [A@10, B@11]; mempool {1, 2}.
    store.write_block(block(10, 0xA1)).unwrap();
    store.write_block(block(11, 0xB1)).unwrap();
    store.mempool_add(entry(1));
    store.mempool_add(entry(2));
    // The backend now reports [A@10, B'@11, C'@12]; txid 1 was mined in
    // C', txid 3 arrived: the digest is {2, 3}.
    let backend = vec![block(10, 0xA1), block(11, 0xB2), block(12, 0xC2)];
    let digest = vec![TransactionHash([2; 32]), TransactionHash([3; 32])];
    let events = apply_backend_poll(&mut store, &mut hub, &backend, &digest, 777).unwrap();
    // Chain: rolled back to the common ancestor, then the backend branch.
    assert_eq!(store.get_tip().unwrap().height, 12);
    assert_eq!(store.get_block(11).unwrap().hash, BlockHash([0xB2; 32]));
    // Mempool: key set equals the digest; the mined txid 1 is gone.
    assert_eq!(store.mempool_txids(), digest);
    assert!(store.get_mempool_entry(&TransactionHash([1; 32])).is_none());
    // Events: the chain plan, then the removal, then the addition — and the
    // subscriber received exactly them, in order.
    assert_eq!(
        events,
        vec![
            ChangeEvent::Rollback(10, BlockHash([0xA1; 32])),
            ChangeEvent::NewBlock(backend[1].clone()),
            ChangeEvent::NewBlock(backend[2].clone()),
            ChangeEvent::MempoolRemove(TransactionHash([1; 32])),
            ChangeEvent::MempoolAdd(TransactionHash([3; 32])),
        ]
    );
    assert_eq!(hub.drain(reader).unwrap(), events);
}

#[test]
fn backend_poll_fails_without_ancestor() {
    let mut store = ChainStateStore::new(10);
    let mut hub = SubscriptionHub::new(16);
    store.write_block(block(10, 0xA1)).unwrap();
    let backend = vec![block(10, 0xEE)];
    let digest = vec![TransactionHash([9; 32])];
    assert_eq!(
        apply_backend_poll(&mut store, &mut hub, &backend, &digest, 0),
        Err(ReorgError::AncestorNotFound)
    );
    // Nothing moved: the chain and the mempool are untouched.
    assert_eq!(store.get_tip().unwrap().hash, BlockHash([0xA1; 32]));
    assert!(store.mempool_txids().is_empty());
}
