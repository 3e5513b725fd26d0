//! The chain-state interface: the read/subscribe surface served to
//! downstream protocol servers, with the backend-health indicator.

use vstd::prelude::*;
use std::sync::Arc;
use std::sync::atomic::AtomicBool;
use crate::primitives::TransactionHash;
use crate::store::{ChainStateStore, ChainTip, BlockRecord, MempoolEntry, CommitmentTreeState,
    Snapshot};
use crate::hub::SubscriptionHub;
use crate::sync::ChangeEvent;

verus! {

/// Backend health: when the last sync succeeded and how many cycles in a
/// row have failed. Past the configured threshold the mirror reports
/// itself degraded; reads keep serving the last good state either way.
#[derive(Clone, Copy, Debug, PartialEq, Eq)]
pub struct HealthTracker {
    /// Unix seconds of the last successful sync cycle.
    pub last_success_unix: u64,
    /// Failed cycles since the last success.
    pub consecutive_failures: u32,
    /// Failures after which the mirror reports itself degraded.
    pub degraded_threshold: u32,
}

impl HealthTracker {
    /// A fresh tracker that treats `now` as the last success.
    pub fn new(degraded_threshold: u32, now: u64) -> (r: HealthTracker)
        ensures
            r.last_success_unix == now,
            r.consecutive_failures == 0,
            r.degraded_threshold == degraded_threshold,
    {
        HealthTracker { last_success_unix: now, consecutive_failures: 0, degraded_threshold }
    }

    /// Records a successful sync cycle at `now`.
    pub fn record_success(&mut self, now: u64)
        ensures
            final(self).last_success_unix == now,
            final(self).consecutive_failures == 0,
            final(self).degraded_threshold == old(self).degraded_threshold,
    {
        self.last_success_unix = now;
        self.consecutive_failures = 0;
    }

    /// Records a failed sync cycle.
    pub fn record_failure(&mut self)
        ensures
            final(self).last_success_unix == old(self).last_success_unix,
            final(self).degraded_threshold == old(self).degraded_threshold,
            final(self).consecutive_failures == (if old(self).consecutive_failures < u32::MAX {
                old(self).consecutive_failures + 1
            } else {
                u32::MAX as int
            }),
    {
        if self.consecutive_failures < u32::MAX {
            self.consecutive_failures = self.consecutive_failures + 1;
        }
    }

    /// Seconds since the last successful sync, as of `now`.
    pub fn staleness_seconds(&self, now: u64) -> (r: u64)
        ensures
            r == (if now >= self.last_success_unix {
                now - self.last_success_unix
            } else {
                0int
            }),
    {
        if now >= self.last_success_unix {
            now - self.last_success_unix
        } else {
            0
        }
    }

    /// Whether the mirror is degraded: at or past the failure threshold.
    pub fn is_degraded(&self) -> (r: bool)
        ensures
            r == (self.consecutive_failures >= self.degraded_threshold),
    {
        self.consecutive_failures >= self.degraded_threshold
    }
}

/// Handle on the chain-fetching service a mirror is fed from.
#[derive(Clone, Copy, Debug, PartialEq, Eq)]
pub struct FetchServiceSubscriber {
    /// Identifier of the subscription at the fetch service.
    pub id: u64,
}

/// The public surface served to downstream protocol servers: consistent
/// reads of the mirror, subscriptions to its change events, and the
/// staleness indicator. `S` is the handle on the backing fetch service.
#[derive(Clone, Debug)]
pub struct ChainStateInterface<S> {
    /// Handle on the backing fetch service.
    pub source: S,
    /// The mirrored chain state served to readers.
    pub store: ChainStateStore,
    /// Fan-out of change events to subscribers.
    pub hub: SubscriptionHub,
    /// Backend health and staleness.
    pub health: HealthTracker,
}

impl<S> ChainStateInterface<S> {
    /// Well-formedness of the mirror and the hub.
    pub open spec fn wf(self) -> bool {
        self.store.wf() && self.hub.wf()
    }

    /// The current chain head, or `None` before the first block.
    pub fn get_tip(&self) -> (r: Option<ChainTip>)
        ensures
            r == self.store.model().tip(),
    {
        self.store.get_tip()
    }

    /// The block at `height`, if mirrored.
    pub fn get_block(&self, height: u32) -> (r: Option<&BlockRecord>)
        requires
            self.wf(),
        ensures
            match r {
                Some(b) => self.store.model().block_at(height as int) == Some(*b),
                None => self.store.model().block_at(height as int) is None,
            },
    {
        self.store.get_block(height)
    }

    /// The mempool entry with the given txid, if present.
    pub fn get_transaction(&self, txid: &TransactionHash) -> (r: Option<&MempoolEntry>)
        ensures
            match r {
                Some(e) => e.txid == *txid && self.store.model().mempool.contains(*e),
                None => forall|i: int|
                    0 <= i < self.store.model().mempool.len() ==> (#[trigger] self.store.model()
                        .mempool[i]).txid != *txid,
            },
    {
        self.store.get_mempool_entry(txid)
    }

    /// The txids of the current mempool, in insertion order.
    pub fn get_mempool_snapshot(&self) -> (r: Vec<TransactionHash>)
        ensures
            r@ == crate::store::mempool_keys(self.store.model().mempool),
    {
        self.store.mempool_txids()
    }

    /// The treestate captured at `height`, if recorded.
    pub fn get_treestate(&self, height: u32) -> (r: Option<&CommitmentTreeState>)
        ensures
            match r {
                Some(t) => t.height == height && self.store.model().treestates.contains(*t),
                None => forall|i: int|
                    0 <= i < self.store.model().treestates.len() ==> (#[trigger] self.store.model()
                        .treestates[i]).height != height,
            },
    {
        self.store.get_treestate(height)
    }

    /// A consistent point-in-time view of the chain.
    pub fn read_snapshot(&self) -> (s: Snapshot)
        ensures
            s.start_height == self.store.start_height,
            s.chain() == self.store.model().blocks,
            s.version == self.store.version,
    {
        self.store.read_snapshot()
    }

    /// Registers a subscriber for the ordered event stream.
    pub fn subscribe(&mut self) -> (r: u64)
        requires
            old(self).hub.wf(),
            old(self).hub.next_id < u64::MAX,
        ensures
            final(self).hub.wf(),
            final(self).store == old(self).store,
            final(self).health == old(self).health,
            r == old(self).hub.next_id,
            final(self).hub.subscribers@.len() == old(self).hub.subscribers@.len() + 1,
            final(self).hub.subscribers@.subrange(
                0,
                old(self).hub.subscribers@.len() as int,
            ) == old(self).hub.subscribers@,
            final(self).hub.subscribers@.last().id == r,
            final(self).hub.subscribers@.last().queue@ == Seq::<ChangeEvent>::empty(),
            final(self).hub.capacity == old(self).hub.capacity,
            final(self).hub.evicted@ == old(self).hub.evicted@,
    {
        self.hub.subscribe()
    }

    /// Hands out and clears the pending events of one subscriber: the
    /// queued events in publish order, or `None` when no subscriber has
    /// the id.
    pub fn drain_events(&mut self, id: u64) -> (r: Option<Vec<ChangeEvent>>)
        requires
            old(self).hub.wf(),
        ensures
            final(self).hub.wf(),
            final(self).store == old(self).store,
            final(self).health == old(self).health,
            final(self).hub.capacity == old(self).hub.capacity,
            final(self).hub.next_id == old(self).hub.next_id,
            final(self).hub.evicted@ == old(self).hub.evicted@,
            final(self).hub.subscribers@.len() == old(self).hub.subscribers@.len(),
            match r {
                Some(events) => exists|k: int|
                    {
                        &&& 0 <= k < old(self).hub.subscribers@.len()
                        &&& (#[trigger] old(self).hub.subscribers@[k]).id == id
                        &&& events@ == old(self).hub.subscribers@[k].queue@
                        &&& final(self).hub.subscribers@[k].id == id
                        &&& final(self).hub.subscribers@[k].queue@ == Seq::<ChangeEvent>::empty()
                        &&& forall|j: int|
                            0 <= j < old(self).hub.subscribers@.len() && j != k ==> final(
                                self).hub.subscribers@[j] == old(self).hub.subscribers@[j]
                    },
                None => *final(self) == *old(self) && forall|k: int|
                    0 <= k < old(self).hub.subscribers@.len() ==> (#[trigger] old(
                        self).hub.subscribers@[k]).id != id,
            },
    {
        self.hub.drain(id)
    }
}

/// The gRPC service handle: the chain-state interface it serves from, and
/// the server's online flag.
#[derive(Clone)]
pub struct GrpcClient {
    /// Chain fetch service subscriber.
    pub chainstate_interface: ChainStateInterface<FetchServiceSubscriber>,
    /// Represents the online status of the gRPC server.
    pub online: Arc<AtomicBool>,
}

} // verus!
