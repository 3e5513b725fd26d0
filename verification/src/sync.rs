//! Synchronizer decision logic: diffing the backend's reported best chain
//! against the mirror and turning the difference into an ordered plan of
//! change events.
//!
//! The synchronizer always trusts the backend's reported best chain and
//! never performs independent chain selection. A divergence is resolved by
//! walking backward from the local tip to the highest height at which the
//! local and backend hashes agree, rolling back to it, and applying the
//! backend's blocks above it in height order. No common ancestor within the
//! mirrored range is a [`ReorgError`].

use vstd::prelude::*;
use std::sync::Arc;
use crate::error::{ReorgError, StoreError};
use crate::primitives::{BlockHash, TransactionHash};
use crate::store::{BlockRecord, ChainStateStore, ChainTip, StoreModel, MempoolEntry, deref_blocks,
    mempool_keys, model_write_block, model_rollback};
use crate::primitives::SerializedTransaction;
use crate::hub::{SubscriptionHub, subs_model, publish_all, lemma_publish_all_snoc};
use crate::util::arc_clone;

verus! {

/// An ordered change notification, published after the mutation it
/// describes is visible.
#[derive(Clone, Debug, PartialEq)]
pub enum ChangeEvent {
    /// A block was appended at the tip.
    NewBlock(Arc<BlockRecord>),
    /// The chain was rolled back to this (height, hash).
    Rollback(u32, BlockHash),
    /// A transaction entered the mempool mirror.
    MempoolAdd(TransactionHash),
    /// A transaction left the mempool mirror.
    MempoolRemove(TransactionHash),
}

/// Copies an event; block events share the block.
pub fn copy_event(e: &ChangeEvent) -> (r: ChangeEvent)
    ensures
        r == *e,
{
    match e {
        ChangeEvent::NewBlock(a) => ChangeEvent::NewBlock(arc_clone(a)),
        ChangeEvent::Rollback(h, hash) => ChangeEvent::Rollback(*h, *hash),
        ChangeEvent::MempoolAdd(t) => ChangeEvent::MempoolAdd(*t),
        ChangeEvent::MempoolRemove(t) => ChangeEvent::MempoolRemove(*t),
    }
}

/// True when `s` holds consecutive heights starting at `h0`.
pub open spec fn contiguous_from(s: Seq<BlockRecord>, h0: int) -> bool {
    forall|i: int| 0 <= i < s.len() ==> (#[trigger] s[i]).height == h0 + i
}

/// True when height `h` is mirrored by both chains with the same hash.
pub open spec fn is_match(lm: StoreModel, bs: Seq<BlockRecord>, h: int) -> bool {
    &&& lm.start_height <= h < lm.next_height()
    &&& bs.len() > 0 && bs[0].height <= h < bs[0].height + bs.len()
    &&& lm.blocks[h - lm.start_height].hash == bs[h - bs[0].height].hash
}

/// Highest height `<= h` at which the chains agree, or `start_height - 1`
/// when there is none.
pub open spec fn ancestor_height(lm: StoreModel, bs: Seq<BlockRecord>, h: int) -> int
    decreases h - lm.start_height + 1,
{
    if h < lm.start_height {
        lm.start_height - 1
    } else if is_match(lm, bs, h) {
        h
    } else {
        ancestor_height(lm, bs, h - 1)
    }
}

/// The events of a sync plan with common ancestor `a`: one rollback if any
/// local block stands above `a`, then the backend's blocks above `a` in
/// height order.
pub open spec fn plan_events(lm: StoreModel, barcs: Seq<Arc<BlockRecord>>, a: int) -> Seq<
    ChangeEvent,
> {
    let b0 = barcs[0].height as int;
    let roll: Seq<ChangeEvent> = if a < lm.next_height() - 1 {
        seq![ChangeEvent::Rollback(a as u32, lm.blocks[a - lm.start_height].hash)]
    } else {
        Seq::<ChangeEvent>::empty()
    };
    roll + new_block_events(barcs, a + 1 - b0)
}

/// `NewBlock` events for the backend blocks from index `j` on.
pub open spec fn new_block_events(barcs: Seq<Arc<BlockRecord>>, j: int) -> Seq<ChangeEvent> {
    Seq::new((barcs.len() - j) as nat, |i: int| ChangeEvent::NewBlock(barcs[j + i]))
}

/// Effect of one chain event on the store model; mempool events and events
/// that do not apply cleanly leave it unchanged.
pub open spec fn model_apply_event(m: StoreModel, e: ChangeEvent) -> StoreModel {
    match e {
        ChangeEvent::NewBlock(a) => model_write_block(m, *a),
        ChangeEvent::Rollback(h, hash) => if m.block_at(h as int) matches Some(b) && b.hash == hash {
            model_rollback(m, h)
        } else {
            m
        },
        ChangeEvent::MempoolAdd(_) => m,
        ChangeEvent::MempoolRemove(_) => m,
    }
}

/// Effect of a sequence of chain events, applied in order.
pub open spec fn model_apply_events(m: StoreModel, es: Seq<ChangeEvent>) -> StoreModel
    decreases es.len(),
{
    if es.len() == 0 {
        m
    } else {
        model_apply_events(model_apply_event(m, es[0]), es.drop_first())
    }
}

/// True when every event of `es` applies cleanly in order: each `NewBlock`
/// lands at the next height or duplicates a stored block, and each
/// `Rollback` targets a stored block.
pub open spec fn valid_plan(m: StoreModel, es: Seq<ChangeEvent>) -> bool
    decreases es.len(),
{
    if es.len() == 0 {
        true
    } else {
        let ok = match es[0] {
            ChangeEvent::NewBlock(a) => a.height == m.next_height() || (m.block_at(
                a.height as int,
            ) matches Some(b) && b.hash == a.hash),
            ChangeEvent::Rollback(h, hash) => m.block_at(h as int) matches Some(b) && b.hash
                == hash,
            ChangeEvent::MempoolAdd(_) => true,
            ChangeEvent::MempoolRemove(_) => true,
        };
        ok && valid_plan(model_apply_event(m, es[0]), es.drop_first())
    }
}


/// Below the backend window nothing can match: the search ends empty.
proof fn lemma_ancestor_below_window(lm: StoreModel, bs: Seq<BlockRecord>, h: int)
    requires
        bs.len() > 0,
        h < bs[0].height,
    ensures
        ancestor_height(lm, bs, h) == lm.start_height - 1,
    decreases h - lm.start_height + 1,
{
    if h >= lm.start_height {
        assert(!is_match(lm, bs, h));
        lemma_ancestor_below_window(lm, bs, h - 1);
    }
}

/// Computes the sync plan for the backend's reported chain window against
/// the mirror: nothing before the window's first block may be missing from
/// the mirror, and the window must connect to it. The plan is exactly one
/// rollback to the highest agreeing height (none when the chains agree at
/// the local tip) followed by the backend's blocks above it, in height
/// order; with no agreeing height the cycle fails with [`ReorgError`].
#[verifier::loop_isolation(false)]
pub fn plan_chain_sync(local: &ChainStateStore, backend: &Vec<Arc<BlockRecord>>) -> (r: Result<
    Vec<ChangeEvent>,
    ReorgError,
>)
    requires
        local.wf(),
        backend@.len() > 0,
        contiguous_from(deref_blocks(backend@), deref_blocks(backend@)[0].height as int),
        deref_blocks(backend@)[0].height >= local.start_height,
        deref_blocks(backend@)[0].height <= local.model().next_height(),
    ensures
        ({
            let lm = local.model();
            let bs = deref_blocks(backend@);
            let hi = if lm.next_height() - 1 <= bs.last().height {
                lm.next_height() - 1
            } else {
                bs.last().height as int
            };
            match r {
                Ok(events) => {
                    if lm.blocks.len() == 0 {
                        events@ == plan_events(lm, backend@, lm.start_height - 1)
                    } else {
                        ancestor_height(lm, bs, hi) >= lm.start_height && events@ == plan_events(
                            lm,
                            backend@,
                            ancestor_height(lm, bs, hi),
                        )
                    }
                },
                Err(e) => {
                    &&& e == ReorgError::AncestorNotFound
                    &&& lm.blocks.len() > 0
                    &&& ancestor_height(lm, bs, hi) == lm.start_height - 1
                },
            }
        }),
{
    let ghost lm = local.model();
    let ghost bs = deref_blocks(backend@);
    let b0: u32 = {
        let b: &BlockRecord = &backend[0];
        b.height
    };
    proof {
        assert(bs[0] == *backend@[0]);
    }
    let blen = backend.len();
    let btip: u32 = {
        let b: &BlockRecord = &backend[blen - 1];
        proof {
            assert(bs[blen - 1] == *backend@[blen - 1]);
        }
        b.height
    };
    if local.blocks.len() == 0 {
        let mut events: Vec<ChangeEvent> = Vec::new();
        let mut j: usize = 0;
        while j < blen
            invariant
                j <= blen,
                events@ =~= new_block_events(backend@, 0).subrange(0, j as int),
            decreases blen - j,
        {
            events.push(ChangeEvent::NewBlock(arc_clone(&backend[j])));
            j = j + 1;
            proof {
                assert(events@ =~= new_block_events(backend@, 0).subrange(0, j as int));
            }
        }
        proof {
            assert(events@ =~= new_block_events(backend@, 0));
            assert(plan_events(lm, backend@, lm.start_height - 1) =~= new_block_events(
                backend@,
                0,
            ));
        }
        return Ok(events);
    }
    let ltip: u32 = {
        let b: &BlockRecord = &local.blocks[local.blocks.len() - 1];
        proof {
            assert(lm.blocks.last() == *b);
        }
        b.height
    };
    let hi: u32 = if ltip <= btip {
        ltip
    } else {
        btip
    };
    let mut h = hi;
    let mut found = false;
    loop
        invariant
            local.wf(),
            lm == local.model(),
            bs == deref_blocks(backend@),
            lm.blocks.len() > 0,
            bs.len() == blen > 0,
            bs[0].height == b0,
            ltip == lm.next_height() - 1,
            btip == bs.last().height,
            h <= hi,
            hi == if ltip <= btip { ltip } else { btip },
            !found ==> ancestor_height(lm, bs, hi as int) == ancestor_height(lm, bs, h as int),
            found ==> ancestor_height(lm, bs, hi as int) == h && h >= local.start_height
                && is_match(lm, bs, h as int),
        decreases h,
    {
        if h < local.start_height || h < b0 {
            proof {
                if h < b0 {
                    lemma_ancestor_below_window(lm, bs, h as int);
                }
            }
            return Err(ReorgError::AncestorNotFound);
        }
        let li = (h - local.start_height) as usize;
        let bi = (h - b0) as usize;
        let lb: &BlockRecord = &local.blocks[li];
        let bb: &BlockRecord = &backend[bi];
        proof {
            assert(lm.blocks[li as int] == *lb);
            assert(bs[bi as int] == *bb);
        }
        if crate::primitives::block_hash_eq(&lb.hash, &bb.hash) {
            found = true;
            proof {
                assert(is_match(lm, bs, h as int));
            }
            break;
        }
        proof {
            assert(!is_match(lm, bs, h as int));
        }
        if h == 0 {
            proof {
                assert(ancestor_height(lm, bs, -1) == lm.start_height - 1);
            }
            return Err(ReorgError::AncestorNotFound);
        }
        h = h - 1;
    }
    let a = h;
    let ghost plan = plan_events(lm, backend@, a as int);
    let mut events: Vec<ChangeEvent> = Vec::new();
    let ghost roll_len: int = if (a as int) < lm.next_height() - 1 {
        1
    } else {
        0
    };
    if a < ltip {
        let lb: &BlockRecord = &local.blocks[(a - local.start_height) as usize];
        proof {
            assert(lm.blocks[a - lm.start_height] == *lb);
        }
        events.push(ChangeEvent::Rollback(a, lb.hash));
    }
    proof {
        assert(events@ =~= plan.subrange(0, roll_len));
    }
    let j0 = (a - b0) as usize + 1;
    let mut j: usize = j0;
    while j < blen
        invariant
            j0 <= j <= blen,
            events@ =~= plan.subrange(0, roll_len + j - j0),
        decreases blen - j,
    {
        events.push(ChangeEvent::NewBlock(arc_clone(&backend[j])));
        j = j + 1;
        proof {
            assert(events@ =~= plan.subrange(0, roll_len + j - j0));
        }
    }
    proof {
        assert(events@ =~= plan);
    }
    Ok(events)
}

/// Applies a sequence of chain events to the store in order, stopping at
/// the first event that does not apply cleanly. Every event of a valid
/// plan applies, and the store then holds exactly the planned state.
#[verifier::loop_isolation(false)]
pub fn apply_chain_events(store: &mut ChainStateStore, events: &Vec<ChangeEvent>) -> (r: Result<
    (),
    StoreError,
>)
    requires
        old(store).wf(),
    ensures
        final(store).wf(),
        r is Ok <==> valid_plan(old(store).model(), events@),
        r is Ok ==> final(store).model() == model_apply_events(old(store).model(), events@),
{
    let ghost m0 = old(store).model();
    proof {
        assert(events@.subrange(0, events@.len() as int) =~= events@);
        assert(events@.subrange(0, 0) =~= Seq::<ChangeEvent>::empty());
    }
    let mut i: usize = 0;
    while i < events.len()
        invariant
            i <= events@.len(),
            store.wf(),
            store.model() == model_apply_events(m0, events@.subrange(0, i as int)),
            valid_plan(m0, events@.subrange(0, i as int)),
            valid_plan(m0, events@) <==> valid_plan(
                store.model(),
                events@.subrange(i as int, events@.len() as int),
            ),
        decreases events@.len() - i,
    {
        let ghost mc = store.model();
        let ghost rest = events@.subrange(i as int, events@.len() as int);
        proof {
            assert(rest[0] == events@[i as int]);
            assert(rest.drop_first() =~= events@.subrange(i + 1, events@.len() as int));
            assert(events@.subrange(0, i + 1).drop_last() =~= events@.subrange(0, i as int));
            lemma_valid_plan_snoc(m0, events@.subrange(0, i + 1));
            lemma_apply_events_snoc(m0, events@.subrange(0, i + 1));
        }
        let ok: Result<(), StoreError> = match &events[i] {
            ChangeEvent::NewBlock(a) => {
                match store.write_block(arc_clone(a)) {
                    Ok(_) => Ok(()),
                    Err(e) => Err(e),
                }
            },
            ChangeEvent::Rollback(hh, hash) => {
                match store.rollback_to(*hh, *hash) {
                    Ok(_) => Ok(()),
                    Err(e) => Err(e),
                }
            },
            ChangeEvent::MempoolAdd(_) => Ok(()),
            ChangeEvent::MempoolRemove(_) => Ok(()),
        };
        match ok {
            Ok(_) => {
                proof {
                    let e = events@[i as int];
                    assert(store.model() == model_apply_event(mc, e));
                    assert(seq![e].drop_first() =~= Seq::<ChangeEvent>::empty());
                    assert(valid_plan(model_apply_event(mc, e), seq![e].drop_first()));
                    assert(valid_plan(mc, seq![e]));
                    assert(events@.subrange(0, i + 1).last() == e);
                    assert(valid_plan(m0, events@.subrange(0, i + 1)));
                    assert(rest.len() > 0);
                    assert(valid_plan(mc, rest) <==> valid_plan(
                        model_apply_event(mc, e),
                        rest.drop_first(),
                    ));
                }
            },
            Err(e) => {
                proof {
                    assert(!valid_plan(mc, rest));
                }
                return Err(e);
            },
        }
        i = i + 1;
    }
    proof {
        assert(events@.subrange(0, events@.len() as int) =~= events@);
    }
    Ok(())
}

/// Splitting off the last event: applying a sequence is applying its
/// prefix, then its last event.
pub proof fn lemma_apply_events_snoc(m: StoreModel, es: Seq<ChangeEvent>)
    requires
        es.len() > 0,
    ensures
        model_apply_events(m, es) == model_apply_event(
            model_apply_events(m, es.drop_last()),
            es.last(),
        ),
    decreases es.len(),
{
    if es.len() == 1 {
        assert(es.drop_last() =~= Seq::<ChangeEvent>::empty());
        assert(es.drop_first() =~= Seq::<ChangeEvent>::empty());
        assert(model_apply_events(m, es.drop_last()) == m);
        assert(model_apply_events(model_apply_event(m, es[0]), es.drop_first())
            == model_apply_event(m, es[0]));
    } else {
        let m1 = model_apply_event(m, es[0]);
        lemma_apply_events_snoc(m1, es.drop_first());
        assert(es.drop_first().drop_last() =~= es.drop_last().drop_first());
        assert(es.drop_first().last() == es.last());
        assert(es.drop_last()[0] == es[0]);
    }
}

/// Splitting off the last event of a valid plan: the prefix is valid and
/// the last event applies cleanly in the state the prefix produces.
pub proof fn lemma_valid_plan_snoc(m: StoreModel, es: Seq<ChangeEvent>)
    requires
        es.len() > 0,
    ensures
        valid_plan(m, es) <==> (valid_plan(m, es.drop_last()) && valid_plan(
            model_apply_events(m, es.drop_last()),
            seq![es.last()],
        )),
    decreases es.len(),
{
    if es.len() == 1 {
        assert(es.drop_last() =~= Seq::<ChangeEvent>::empty());
        assert(seq![es.last()] =~= es);
    } else {
        let m1 = model_apply_event(m, es[0]);
        lemma_valid_plan_snoc(m1, es.drop_first());
        assert(es.drop_first().drop_last() =~= es.drop_last().drop_first());
        assert(es.drop_first().last() == es.last());
        assert(es.drop_last()[0] == es[0]);
        assert(seq![es[0]].drop_first() =~= Seq::<ChangeEvent>::empty());
    }
}


/// Appending a run of contiguous backend blocks from index `j` on is a
/// valid plan, and it extends the chain by exactly those blocks.
proof fn lemma_apply_new_blocks(m: StoreModel, barcs: Seq<Arc<BlockRecord>>, j: int)
    requires
        0 <= j <= barcs.len(),
        contiguous_from(deref_blocks(barcs), deref_blocks(barcs)[0].height as int),
        barcs.len() > 0,
        m.next_height() == deref_blocks(barcs)[0].height + j,
    ensures
        valid_plan(m, new_block_events(barcs, j)),
        model_apply_events(m, new_block_events(barcs, j)) == (StoreModel {
            blocks: m.blocks + deref_blocks(barcs).subrange(j, barcs.len() as int),
            ..m
        }),
    decreases barcs.len() - j,
{
    let bs = deref_blocks(barcs);
    let es = new_block_events(barcs, j);
    if j == barcs.len() {
        assert(es =~= Seq::<ChangeEvent>::empty());
        assert(bs.subrange(j, barcs.len() as int) =~= Seq::<BlockRecord>::empty());
        assert(m.blocks + bs.subrange(j, barcs.len() as int) =~= m.blocks);
        assert(model_apply_events(m, es) == m);
        assert((StoreModel { blocks: m.blocks + bs.subrange(j, barcs.len() as int), ..m }) == m);
    } else {
        assert(es[0] == ChangeEvent::NewBlock(barcs[j]));
        assert(bs[j] == *barcs[j]);
        assert(bs[j].height == bs[0].height + j);
        let m1 = model_apply_event(m, es[0]);
        assert(m1 == (StoreModel { blocks: m.blocks.push(bs[j]), ..m }));
        assert(m1.next_height() == bs[0].height + j + 1);
        lemma_apply_new_blocks(m1, barcs, j + 1);
        assert(es.drop_first() =~= new_block_events(barcs, j + 1));
        assert(m1.blocks + bs.subrange(j + 1, barcs.len() as int) =~= m.blocks + bs.subrange(
            j,
            barcs.len() as int,
        ));
    }
}

/// Reorg correctness: a plan computed against a common ancestor `a` is
/// valid, and applying it leaves the mirror holding exactly the local
/// chain up to `a` followed by the backend's blocks above `a` — one
/// rollback, then the backend's branch, and nothing else.
pub proof fn lemma_sync_plan_correct(lm: StoreModel, barcs: Seq<Arc<BlockRecord>>, a: int)
    requires
        lm.wf(),
        barcs.len() > 0,
        contiguous_from(deref_blocks(barcs), deref_blocks(barcs)[0].height as int),
        deref_blocks(barcs)[0].height >= lm.start_height,
        deref_blocks(barcs)[0].height <= lm.next_height(),
        (lm.blocks.len() == 0 && a == lm.start_height - 1) || is_match(lm, deref_blocks(barcs), a),
    ensures
        valid_plan(lm, plan_events(lm, barcs, a)),
        model_apply_events(lm, plan_events(lm, barcs, a)) == (StoreModel {
            blocks: lm.blocks.subrange(0, a + 1 - lm.start_height) + deref_blocks(barcs).subrange(
                a + 1 - deref_blocks(barcs)[0].height,
                barcs.len() as int,
            ),
            treestates: crate::store::keep_treestates(lm.treestates, a as u32),
            ..lm
        }) || (a == lm.next_height() - 1 && model_apply_events(lm, plan_events(lm, barcs, a)) == (
        StoreModel {
            blocks: lm.blocks + deref_blocks(barcs).subrange(
                a + 1 - deref_blocks(barcs)[0].height,
                barcs.len() as int,
            ),
            ..lm
        })),
{
    let bs = deref_blocks(barcs);
    let b0 = bs[0].height as int;
    let es = plan_events(lm, barcs, a);
    if a == lm.next_height() - 1 {
        assert(es =~= new_block_events(barcs, a + 1 - b0));
        lemma_apply_new_blocks(lm, barcs, a + 1 - b0);
    } else {
        assert(is_match(lm, bs, a));
        let e0 = ChangeEvent::Rollback(a as u32, lm.blocks[a - lm.start_height].hash);
        assert(es[0] == e0);
        assert(lm.block_at(a) == Some(lm.blocks[a - lm.start_height]));
        assert(lm.blocks[a - lm.start_height].height == a);
        let m1 = model_apply_event(lm, e0);
        assert(m1 == model_rollback(lm, a as u32));
        assert(m1.blocks == lm.blocks.subrange(0, a + 1 - lm.start_height));
        assert(m1.next_height() == a + 1);
        lemma_apply_new_blocks(m1, barcs, a + 1 - b0);
        assert(es.drop_first() =~= new_block_events(barcs, a + 1 - b0));
        assert(valid_plan(lm, es));
        lemma_apply_events_snoc(lm, es);
        assert(model_apply_events(lm, es) == model_apply_events(m1, es.drop_first()));
    }
}


/// The txids of `a` that `b` does not hold, in `a`'s order.
pub open spec fn txid_diff(a: Seq<TransactionHash>, b: Seq<TransactionHash>) -> Seq<
    TransactionHash,
> {
    a.filter(|t: TransactionHash| !b.contains(t))
}

/// Whether `v` holds `t`.
#[verifier::loop_isolation(false)]
fn txids_contain(v: &Vec<TransactionHash>, t: &TransactionHash) -> (r: bool)
    ensures
        r == v@.contains(*t),
{
    let n = v.len();
    let mut i: usize = 0;
    while i < n
        invariant
            i <= n,
            n == v@.len(),
            forall|k: int| 0 <= k < i ==> v@[k] != *t,
        decreases n - i,
    {
        if crate::primitives::txid_eq(&v[i], t) {
            return true;
        }
        i = i + 1;
    }
    proof {
        assert(!v@.contains(*t));
    }
    false
}

/// The elements of `a` that `b` does not hold, in `a`'s order.
#[verifier::loop_isolation(false)]
fn txids_without(a: &Vec<TransactionHash>, b: &Vec<TransactionHash>) -> (r: Vec<TransactionHash>)
    ensures
        r@ == txid_diff(a@, b@),
{
    let mut r: Vec<TransactionHash> = Vec::new();
    let n = a.len();
    let mut i: usize = 0;
    proof {
        reveal(Seq::filter);
        assert(a@.subrange(0, 0) =~= Seq::<TransactionHash>::empty());
    }
    while i < n
        invariant
            i <= n,
            n == a@.len(),
            r@ == txid_diff(a@.subrange(0, i as int), b@),
        decreases n - i,
    {
        proof {
            reveal(Seq::filter);
            assert(a@.subrange(0, i + 1).drop_last() =~= a@.subrange(0, i as int));
            assert(a@.subrange(0, i + 1).last() == a@[i as int]);
        }
        if !txids_contain(b, &a[i]) {
            r.push(a[i]);
        }
        i = i + 1;
        proof {
            assert(r@ =~= txid_diff(a@.subrange(0, i as int), b@));
        }
    }
    proof {
        assert(a@.subrange(0, n as int) =~= a@);
    }
    r
}

/// Diffs the freshly polled mempool digest against the previous one: the
/// txids to add (new in `curr`) and the txids to remove (gone from
/// `prev`), each in their digest's order.
pub fn diff_mempool(prev: &Vec<TransactionHash>, curr: &Vec<TransactionHash>) -> (r: (
    Vec<TransactionHash>,
    Vec<TransactionHash>,
))
    ensures
        r.0@ == txid_diff(curr@, prev@),
        r.1@ == txid_diff(prev@, curr@),
{
    (txids_without(curr, prev), txids_without(prev, curr))
}


/// The synchronizer's control state.
#[derive(Clone, Copy, Debug, PartialEq, Eq)]
pub enum SyncState {
    /// Waiting for the next polling interval.
    Idle,
    /// Querying the backend's tip and mempool digest.
    Polling,
    /// Comparing the backend's report against the mirror.
    Diffing,
    /// Committing the planned changes to the store.
    Applying,
    /// Backend unreachable or undecodable: no store mutation, polling is
    /// retried with backoff.
    Recovering,
}

/// What happened in the synchronizer's current state.
#[derive(Clone, Copy, Debug, PartialEq, Eq)]
pub enum SyncOutcome {
    /// The polling (or backoff) timer fired.
    TimerFired,
    /// The backend answered the poll and the answer decoded.
    PollSucceeded,
    /// The poll failed or its answer did not decode.
    PollFailed,
    /// The diff produced a plan of change events.
    DiffComputed,
    /// The diff found no common ancestor.
    DiffFailed,
    /// Every planned event was committed.
    ApplyCompleted,
    /// A planned event did not apply.
    ApplyFailed,
}

/// The synchronizer's next state after `outcome` in `state`: the polling
/// loop `Idle -> Polling -> Diffing -> Applying -> Idle`, with every
/// failure leading to `Recovering` and recovery retrying the poll. An
/// outcome that cannot arise in the state leaves it unchanged.
pub open spec fn sync_transition(state: SyncState, outcome: SyncOutcome) -> SyncState {
    match (state, outcome) {
        (SyncState::Idle, SyncOutcome::TimerFired) => SyncState::Polling,
        (SyncState::Polling, SyncOutcome::PollSucceeded) => SyncState::Diffing,
        (SyncState::Polling, SyncOutcome::PollFailed) => SyncState::Recovering,
        (SyncState::Diffing, SyncOutcome::DiffComputed) => SyncState::Applying,
        (SyncState::Diffing, SyncOutcome::DiffFailed) => SyncState::Recovering,
        (SyncState::Applying, SyncOutcome::ApplyCompleted) => SyncState::Idle,
        (SyncState::Applying, SyncOutcome::ApplyFailed) => SyncState::Recovering,
        (SyncState::Recovering, SyncOutcome::TimerFired) => SyncState::Polling,
        _ => state,
    }
}

/// Advances the synchronizer's control state.
pub fn sync_step(state: SyncState, outcome: SyncOutcome) -> (r: SyncState)
    ensures
        r == sync_transition(state, outcome),
{
    match (state, outcome) {
        (SyncState::Idle, SyncOutcome::TimerFired) => SyncState::Polling,
        (SyncState::Polling, SyncOutcome::PollSucceeded) => SyncState::Diffing,
        (SyncState::Polling, SyncOutcome::PollFailed) => SyncState::Recovering,
        (SyncState::Diffing, SyncOutcome::DiffComputed) => SyncState::Applying,
        (SyncState::Diffing, SyncOutcome::DiffFailed) => SyncState::Recovering,
        (SyncState::Applying, SyncOutcome::ApplyCompleted) => SyncState::Idle,
        (SyncState::Applying, SyncOutcome::ApplyFailed) => SyncState::Recovering,
        (SyncState::Recovering, SyncOutcome::TimerFired) => SyncState::Polling,
        (s, _) => s,
    }
}


/// The txids of `a` that `b` also holds, in `a`'s order.
pub open spec fn txid_keep(a: Seq<TransactionHash>, b: Seq<TransactionHash>) -> Seq<
    TransactionHash,
> {
    a.filter(|t: TransactionHash| b.contains(t))
}

/// The entries of `s` whose txid `d` holds, in order.
pub open spec fn mempool_keep(s: Seq<MempoolEntry>, d: Seq<TransactionHash>) -> Seq<MempoolEntry> {
    s.filter(|e: MempoolEntry| d.contains(e.txid))
}

/// `MempoolRemove` events for `ts`, in order.
pub open spec fn removal_events(ts: Seq<TransactionHash>) -> Seq<ChangeEvent> {
    ts.map_values(|t: TransactionHash| ChangeEvent::MempoolRemove(t))
}

/// `MempoolAdd` events for `ts`, in order.
pub open spec fn addition_events(ts: Seq<TransactionHash>) -> Seq<ChangeEvent> {
    ts.map_values(|t: TransactionHash| ChangeEvent::MempoolAdd(t))
}

/// Membership in a txid difference: exactly the elements of `a` that `b`
/// does not hold.
pub proof fn lemma_txid_diff_membership(a: Seq<TransactionHash>, b: Seq<TransactionHash>)
    ensures
        forall|t: TransactionHash|
            #[trigger] txid_diff(a, b).contains(t) <==> a.contains(t) && !b.contains(t),
    decreases a.len(),
{
    reveal(Seq::filter);
    if a.len() > 0 {
        lemma_txid_diff_membership(a.drop_last(), b);
        assert forall|t: TransactionHash| #[trigger]
            txid_diff(a, b).contains(t) <==> a.contains(t) && !b.contains(t) by {
            let d = txid_diff(a, b);
            let d0 = txid_diff(a.drop_last(), b);
            if d.contains(t) {
                if b.contains(a.last()) || t != a.last() {
                    if d0.contains(t) {
                        let i = choose|i: int| 0 <= i < a.drop_last().len() && a.drop_last()[i]
                            == t;
                        assert(a[i] == t);
                    } else {
                        assert(t == a.last());
                    }
                }
                if !d0.contains(t) && !b.contains(a.last()) && t == a.last() {
                    assert(a[a.len() - 1] == t);
                }
            }
            if a.contains(t) && !b.contains(t) {
                let i = choose|i: int| 0 <= i < a.len() && a[i] == t;
                if i < a.len() - 1 {
                    assert(a.drop_last()[i] == t);
                    assert(d0.contains(t));
                    let j = choose|j: int| 0 <= j < d0.len() && d0[j] == t;
                    assert(d[j] == t);
                } else {
                    assert(t == a.last());
                    assert(d.last() == t);
                }
            }
        }
    }
}

/// Membership in a txid intersection: exactly the elements of `a` that `b`
/// also holds.
pub proof fn lemma_txid_keep_membership(a: Seq<TransactionHash>, b: Seq<TransactionHash>)
    ensures
        forall|t: TransactionHash|
            #[trigger] txid_keep(a, b).contains(t) <==> a.contains(t) && b.contains(t),
    decreases a.len(),
{
    reveal(Seq::filter);
    if a.len() > 0 {
        lemma_txid_keep_membership(a.drop_last(), b);
        assert forall|t: TransactionHash| #[trigger]
            txid_keep(a, b).contains(t) <==> a.contains(t) && b.contains(t) by {
            let d = txid_keep(a, b);
            let d0 = txid_keep(a.drop_last(), b);
            if d.contains(t) {
                if d0.contains(t) {
                    let i = choose|i: int| 0 <= i < a.drop_last().len() && a.drop_last()[i] == t;
                    assert(a[i] == t);
                } else {
                    assert(t == a.last());
                    assert(a[a.len() - 1] == t);
                }
            }
            if a.contains(t) && b.contains(t) {
                let i = choose|i: int| 0 <= i < a.len() && a[i] == t;
                if i < a.len() - 1 {
                    assert(a.drop_last()[i] == t);
                    assert(d0.contains(t));
                    let j = choose|j: int| 0 <= j < d0.len() && d0[j] == t;
                    assert(d[j] == t);
                } else {
                    assert(t == a.last());
                    assert(d.last() == t);
                }
            }
        }
    }
}

/// The keys of the kept entries are the kept keys.
proof fn lemma_keys_of_keep(s: Seq<MempoolEntry>, d: Seq<TransactionHash>)
    ensures
        mempool_keys(mempool_keep(s, d)) == txid_keep(mempool_keys(s), d),
    decreases s.len(),
{
    reveal(Seq::filter);
    if s.len() == 0 {
        assert(mempool_keys(mempool_keep(s, d)) =~= txid_keep(mempool_keys(s), d));
    } else {
        lemma_keys_of_keep(s.drop_last(), d);
        assert(mempool_keys(s).drop_last() =~= mempool_keys(s.drop_last()));
        assert(mempool_keys(s).last() == s.last().txid);
        if d.contains(s.last().txid) {
            assert(mempool_keep(s, d) == mempool_keep(s.drop_last(), d).push(s.last()));
            assert(mempool_keys(mempool_keep(s, d)) =~= mempool_keys(
                mempool_keep(s.drop_last(), d),
            ).push(s.last().txid));
            assert(txid_keep(mempool_keys(s), d) == txid_keep(mempool_keys(s.drop_last()), d).push(
                s.last().txid,
            ));
        } else {
            assert(mempool_keep(s, d) == mempool_keep(s.drop_last(), d));
            assert(txid_keep(mempool_keys(s), d) == txid_keep(mempool_keys(s.drop_last()), d));
        }
    }
}

/// A search result at or above the start height is a matching height.
proof fn lemma_ancestor_is_match(lm: StoreModel, bs: Seq<BlockRecord>, h: int)
    ensures
        ancestor_height(lm, bs, h) >= lm.start_height ==> is_match(
            lm,
            bs,
            ancestor_height(lm, bs, h),
        ),
    decreases h - lm.start_height + 1,
{
    if h >= lm.start_height && !is_match(lm, bs, h) {
        lemma_ancestor_is_match(lm, bs, h - 1);
    }
}


/// Applies one backend poll to the mirror: plans against the reported
/// chain window, commits the plan, reconciles the mempool mirror with the
/// polled digest (a set: txids pairwise distinct), and publishes every
/// change event to the hub only after the mutation it describes is
/// visible. Returns the published events, in order: the chain plan, then
/// the removals of txids gone from the digest, then the additions new in
/// it. A mined transaction leaves the digest and is therefore removed.
/// Fails without any mutation when no common ancestor is found.
#[verifier::loop_isolation(false)]
#[verifier::rlimit(60)]
pub fn apply_backend_poll(
    store: &mut ChainStateStore,
    hub: &mut SubscriptionHub,
    backend: &Vec<Arc<BlockRecord>>,
    digest: &Vec<TransactionHash>,
    now: u64,
) -> (r: Result<Vec<ChangeEvent>, ReorgError>)
    requires
        old(store).wf(),
        old(hub).wf(),
        backend@.len() > 0,
        contiguous_from(deref_blocks(backend@), deref_blocks(backend@)[0].height as int),
        deref_blocks(backend@)[0].height >= old(store).start_height,
        deref_blocks(backend@)[0].height <= old(store).model().next_height(),
        forall|i: int, j: int| 0 <= i < j < digest@.len() ==> digest@[i] != digest@[j],
    ensures
        final(store).wf(),
        final(hub).wf(),
        final(hub).capacity == old(hub).capacity,
        final(hub).next_id == old(hub).next_id,
        ({
            let bs = deref_blocks(backend@);
            let m0 = old(store).model();
            let old_keys = mempool_keys(m0.mempool);
            let hi = if m0.next_height() - 1 <= bs.last().height {
                m0.next_height() - 1
            } else {
                bs.last().height as int
            };
            match r {
                Ok(events) => {
                    &&& final(store).model().tip() == Some(
                        ChainTip { height: bs.last().height, hash: bs.last().hash },
                    )
                    &&& final(store).start_height == old(store).start_height
                    &&& mempool_keys(final(store).model().mempool) == txid_keep(
                        old_keys,
                        digest@,
                    ) + txid_diff(digest@, old_keys)
                    &&& forall|t: TransactionHash|
                        #[trigger] mempool_keys(final(store).model().mempool).contains(t)
                            <==> digest@.contains(t)
                    &&& events@ == (if m0.blocks.len() == 0 {
                        plan_events(m0, backend@, m0.start_height - 1)
                    } else {
                        plan_events(m0, backend@, ancestor_height(m0, bs, hi))
                    }) + removal_events(txid_diff(old_keys, digest@)) + addition_events(
                        txid_diff(digest@, old_keys),
                    )
                    &&& subs_model(final(hub).subscribers@) == publish_all(
                        subs_model(old(hub).subscribers@),
                        events@,
                        old(hub).capacity as int,
                    ).0
                    &&& final(hub).evicted@ == old(hub).evicted@ + publish_all(
                        subs_model(old(hub).subscribers@),
                        events@,
                        old(hub).capacity as int,
                    ).1
                },
                Err(e) => {
                    &&& e == ReorgError::AncestorNotFound
                    &&& *final(store) == *old(store)
                    &&& *final(hub) == *old(hub)
                    &&& m0.blocks.len() > 0 && ancestor_height(m0, bs, hi) == m0.start_height - 1
                },
            }
        }),
{
    broadcast use vstd::prelude::Seq::lemma_filter_pred;

    let ghost m0 = old(store).model();
    let ghost bs = deref_blocks(backend@);
    let ghost subs0 = subs_model(old(hub).subscribers@);
    let ghost cap = old(hub).capacity as int;
    let ghost ev0 = old(hub).evicted@;
    let chain_events = match plan_chain_sync(store, backend) {
        Ok(es) => es,
        Err(e) => {
            return Err(e);
        },
    };
    let ghost a: int = if m0.blocks.len() == 0 {
        m0.start_height - 1
    } else {
        let hi = if m0.next_height() - 1 <= bs.last().height {
            m0.next_height() - 1
        } else {
            bs.last().height as int
        };
        ancestor_height(m0, bs, hi)
    };
    proof {
        if m0.blocks.len() > 0 {
            let hi = if m0.next_height() - 1 <= bs.last().height {
                m0.next_height() - 1
            } else {
                bs.last().height as int
            };
            lemma_ancestor_is_match(m0, bs, hi);
        }
        lemma_sync_plan_correct(m0, backend@, a);
        assert(valid_plan(m0, chain_events@));
    }
    match apply_chain_events(store, &chain_events) {
        Ok(_) => (),
        Err(_) => {
            proof {
                assert(false);
            }
            return Err(ReorgError::AncestorNotFound);
        },
    }
    let ghost mc = store.model();
    proof {
        assert(mc == model_apply_events(m0, chain_events@));
        assert(mc.mempool == m0.mempool);
        assert(mc.start_height == m0.start_height);
        // the new tip is the backend's reported tip
        let b0 = bs[0].height as int;
        let suffix = bs.subrange(a + 1 - b0, bs.len() as int);
        if a == m0.next_height() - 1 && !(m0.blocks.len() == 0 && a == m0.start_height - 1
            && mc.blocks == m0.blocks.subrange(0, a + 1 - m0.start_height) + suffix) {
            if mc.blocks == m0.blocks + suffix {
                if suffix.len() > 0 {
                    assert(mc.blocks.last() == bs.last());
                } else {
                    assert(a == b0 + bs.len() - 1);
                    assert(mc.blocks.last() == m0.blocks.last());
                    assert(is_match(m0, bs, a));
                    assert(m0.blocks[a - m0.start_height].height == a);
                    assert(bs[a - b0].height == a);
                    assert(mc.blocks.last().hash == bs.last().hash);
                }
            }
        }
        if mc.blocks == m0.blocks.subrange(0, a + 1 - m0.start_height) + suffix {
            if suffix.len() > 0 {
                assert(mc.blocks.last() == bs.last());
            } else {
                assert(a == b0 + bs.len() - 1);
                assert(is_match(m0, bs, a));
                assert(mc.blocks.last() == m0.blocks[a - m0.start_height]);
                assert(m0.blocks[a - m0.start_height].height == a);
                assert(bs[a - b0].height == a);
            }
        }
        assert(mc.tip() == Some(ChainTip { height: bs.last().height, hash: bs.last().hash }));
    }
    // publish the chain events, now that every mutation is visible
    let mut published: Vec<ChangeEvent> = Vec::new();
    let mut pe: usize = 0;
    proof {
        assert(published@ =~= chain_events@.subrange(0, 0));
        assert(publish_all(subs0, Seq::<ChangeEvent>::empty(), cap) == (subs0, Seq::<
            u64,
        >::empty()));
        assert(hub.evicted@ =~= ev0 + Seq::<u64>::empty());
    }
    while pe < chain_events.len()
        invariant
            pe <= chain_events@.len(),
            hub.wf(),
            hub.capacity == old(hub).capacity,
            hub.next_id == old(hub).next_id,
            published@ == chain_events@.subrange(0, pe as int),
            subs_model(hub.subscribers@) == publish_all(subs0, published@, cap).0,
            hub.evicted@ == ev0 + publish_all(subs0, published@, cap).1,
        decreases chain_events@.len() - pe,
    {
        hub.publish(&chain_events[pe]);
        published.push(copy_event(&chain_events[pe]));
        pe = pe + 1;
        proof {
            assert(published@.drop_last() =~= chain_events@.subrange(0, pe - 1));
            assert(published@ =~= chain_events@.subrange(0, pe as int));
            lemma_publish_all_snoc(subs0, published@, cap);
            assert(hub.evicted@ =~= ev0 + publish_all(subs0, published@, cap).1);
        }
    }
    proof {
        assert(chain_events@.subrange(0, chain_events@.len() as int) =~= chain_events@);
    }
    // reconcile the mempool with the polled digest
    let prev = store.mempool_txids();
    let ghost mm0 = store.model().mempool;
    let mut i: usize = 0;
    proof {
        assert(mm0.subrange(0, 0) =~= Seq::<MempoolEntry>::empty());
        assert(mempool_keep(mm0.subrange(0, 0), digest@) =~= Seq::<MempoolEntry>::empty());
        assert(store.model().mempool =~= mempool_keep(mm0.subrange(0, 0), digest@) + mm0.subrange(
            0,
            mm0.len() as int,
        ));
        assert(prev@.subrange(0, 0) =~= Seq::<TransactionHash>::empty());
        reveal(Seq::filter);
        assert(removal_events(txid_diff(prev@.subrange(0, 0), digest@)) =~= Seq::<
            ChangeEvent,
        >::empty());
        assert(published@ =~= chain_events@ + removal_events(
            txid_diff(prev@.subrange(0, 0), digest@),
        ));
    }
    while i < prev.len()
        invariant
            i <= prev@.len(),
            prev@ == mempool_keys(mm0),
            prev@.len() == mm0.len(),
            store.wf(),
            hub.wf(),
            hub.capacity == old(hub).capacity,
            hub.next_id == old(hub).next_id,
            store.model().blocks == mc.blocks,
            store.model().treestates == mc.treestates,
            store.model().start_height == mc.start_height,
            store.model().mempool == mempool_keep(mm0.subrange(0, i as int), digest@)
                + mm0.subrange(i as int, mm0.len() as int),
            published@ == chain_events@ + removal_events(
                txid_diff(prev@.subrange(0, i as int), digest@),
            ),
            subs_model(hub.subscribers@) == publish_all(subs0, published@, cap).0,
            hub.evicted@ == ev0 + publish_all(subs0, published@, cap).1,
        decreases prev@.len() - i,
    {
        let t = prev[i];
        proof {
            reveal(Seq::filter);
            assert(prev@[i as int] == mm0[i as int].txid);
            assert(mm0.subrange(0, i + 1).drop_last() =~= mm0.subrange(0, i as int));
            assert(mm0.subrange(0, i + 1).last() == mm0[i as int]);
            assert(prev@.subrange(0, i + 1).drop_last() =~= prev@.subrange(0, i as int));
            assert(prev@.subrange(0, i + 1).last() == prev@[i as int]);
        }
        if !txids_contain(digest, &t) {
            let ghost pool_pre = store.model().mempool;
            let ghost klen = mempool_keep(mm0.subrange(0, i as int), digest@).len();
            proof {
                assert(pool_pre[klen as int] == mm0[i as int]);
                assert(pool_pre[klen as int].txid == t);
            }
            let removed = store.mempool_remove(&t);
            proof {
                assert(removed);
                let j = choose|j: int|
                    0 <= j < pool_pre.len() && (#[trigger] pool_pre[j]).txid == t
                        && store.model().mempool == pool_pre.remove(j);
                assert(j == klen) by {
                    if j < klen {
                        assert(digest@.contains(pool_pre[j].txid));
                    } else if j > klen {
                        assert(pool_pre[j] == mm0[i + j - klen]);
                        assert(mm0[i + j - klen].txid == mempool_keys(mm0)[i + j - klen]);
                        assert(prev@[i as int] != prev@[i + j - klen]) by {
                            assert(mm0[i as int].txid == mempool_keys(mm0)[i as int]);
                        }
                    }
                }
                assert(mempool_keep(mm0.subrange(0, i + 1), digest@) =~= mempool_keep(
                    mm0.subrange(0, i as int),
                    digest@,
                ));
                assert(store.model().mempool =~= mempool_keep(mm0.subrange(0, i + 1), digest@)
                    + mm0.subrange(i + 1, mm0.len() as int));
            }
            hub.publish(&ChangeEvent::MempoolRemove(t));
            published.push(ChangeEvent::MempoolRemove(t));
            proof {
                assert(txid_diff(prev@.subrange(0, i + 1), digest@) =~= txid_diff(
                    prev@.subrange(0, i as int),
                    digest@,
                ).push(t));
                assert(removal_events(txid_diff(prev@.subrange(0, i + 1), digest@)) =~=
                    removal_events(txid_diff(prev@.subrange(0, i as int), digest@)).push(
                    ChangeEvent::MempoolRemove(t),
                ));
                assert(published@.drop_last() =~= chain_events@ + removal_events(
                    txid_diff(prev@.subrange(0, i as int), digest@),
                ));
                assert(published@ =~= chain_events@ + removal_events(
                    txid_diff(prev@.subrange(0, i + 1), digest@),
                ));
                lemma_publish_all_snoc(subs0, published@, cap);
                assert(hub.evicted@ =~= ev0 + publish_all(subs0, published@, cap).1);
            }
        } else {
            proof {
                assert(mempool_keep(mm0.subrange(0, i + 1), digest@) =~= mempool_keep(
                    mm0.subrange(0, i as int),
                    digest@,
                ).push(mm0[i as int]));
                assert(store.model().mempool =~= mempool_keep(mm0.subrange(0, i + 1), digest@)
                    + mm0.subrange(i + 1, mm0.len() as int));
                assert(txid_diff(prev@.subrange(0, i + 1), digest@) =~= txid_diff(
                    prev@.subrange(0, i as int),
                    digest@,
                ));
                assert(published@ =~= chain_events@ + removal_events(
                    txid_diff(prev@.subrange(0, i + 1), digest@),
                ));
            }
        }
        i = i + 1;
    }
    proof {
        assert(mm0.subrange(0, mm0.len() as int) =~= mm0);
        assert(mm0.subrange(mm0.len() as int, mm0.len() as int) =~= Seq::<MempoolEntry>::empty());
        assert(store.model().mempool =~= mempool_keep(mm0, digest@));
        assert(prev@.subrange(0, prev@.len() as int) =~= prev@);
        lemma_keys_of_keep(mm0, digest@);
        reveal(Seq::filter);
        assert(txid_diff(digest@.subrange(0, 0), prev@) =~= Seq::<TransactionHash>::empty());
        assert(mempool_keys(store.model().mempool) =~= txid_keep(prev@, digest@) + txid_diff(
            digest@.subrange(0, 0),
            prev@,
        ));
        assert(addition_events(txid_diff(digest@.subrange(0, 0), prev@)) =~= Seq::<
            ChangeEvent,
        >::empty());
        assert(published@ =~= chain_events@ + removal_events(txid_diff(prev@, digest@))
            + addition_events(txid_diff(digest@.subrange(0, 0), prev@)));
    }
    let mut j: usize = 0;
    while j < digest.len()
        invariant
            j <= digest@.len(),
            prev@ == mempool_keys(mm0),
            store.wf(),
            hub.wf(),
            hub.capacity == old(hub).capacity,
            hub.next_id == old(hub).next_id,
            store.model().blocks == mc.blocks,
            store.model().treestates == mc.treestates,
            store.model().start_height == mc.start_height,
            mempool_keys(store.model().mempool) == txid_keep(prev@, digest@) + txid_diff(
                digest@.subrange(0, j as int),
                prev@,
            ),
            published@ == chain_events@ + removal_events(txid_diff(prev@, digest@))
                + addition_events(txid_diff(digest@.subrange(0, j as int), prev@)),
            subs_model(hub.subscribers@) == publish_all(subs0, published@, cap).0,
            hub.evicted@ == ev0 + publish_all(subs0, published@, cap).1,
        decreases digest@.len() - j,
    {
        let t = digest[j];
        proof {
            reveal(Seq::filter);
            assert(digest@.subrange(0, j + 1).drop_last() =~= digest@.subrange(0, j as int));
            assert(digest@.subrange(0, j + 1).last() == digest@[j as int]);
        }
        if !txids_contain(&prev, &t) {
            proof {
                lemma_txid_keep_membership(prev@, digest@);
                lemma_txid_diff_membership(digest@.subrange(0, j as int), prev@);
                let keys = mempool_keys(store.model().mempool);
                let keep = txid_keep(prev@, digest@);
                let added = txid_diff(digest@.subrange(0, j as int), prev@);
                assert forall|k: int|
                    0 <= k < store.model().mempool.len() implies (#[trigger] store.model()
                    .mempool[k]).txid != t by {
                    assert(keys[k] == store.model().mempool[k].txid);
                    if k < keep.len() {
                        assert(keep.contains(keys[k]));
                        assert(prev@.contains(keys[k]));
                    } else {
                        assert(added[k - keep.len()] == keys[k]);
                        assert(added.contains(keys[k]));
                        assert(digest@.subrange(0, j as int).contains(keys[k]));
                        if keys[k] == t {
                            let w = choose|w: int|
                                0 <= w < j && digest@.subrange(0, j as int)[w] == keys[k];
                            assert(digest@[w] == digest@[j as int]);
                        }
                    }
                }
            }
            let ghost pool_pre = store.model().mempool;
            let added_now = store.mempool_add(
                MempoolEntry { txid: t, raw: SerializedTransaction(Vec::new()), inserted_at: now },
            );
            proof {
                assert(added_now);
                assert(mempool_keys(store.model().mempool) =~= mempool_keys(pool_pre).push(t));
                assert(txid_diff(digest@.subrange(0, j + 1), prev@) =~= txid_diff(
                    digest@.subrange(0, j as int),
                    prev@,
                ).push(t));
                assert(mempool_keys(store.model().mempool) =~= txid_keep(prev@, digest@)
                    + txid_diff(digest@.subrange(0, j + 1), prev@));
            }
            hub.publish(&ChangeEvent::MempoolAdd(t));
            published.push(ChangeEvent::MempoolAdd(t));
            proof {
                assert(addition_events(txid_diff(digest@.subrange(0, j + 1), prev@)) =~=
                    addition_events(txid_diff(digest@.subrange(0, j as int), prev@)).push(
                    ChangeEvent::MempoolAdd(t),
                ));
                assert(published@.drop_last() =~= chain_events@ + removal_events(
                    txid_diff(prev@, digest@),
                ) + addition_events(txid_diff(digest@.subrange(0, j as int), prev@)));
                assert(published@ =~= chain_events@ + removal_events(txid_diff(prev@, digest@))
                    + addition_events(txid_diff(digest@.subrange(0, j + 1), prev@)));
                lemma_publish_all_snoc(subs0, published@, cap);
                assert(hub.evicted@ =~= ev0 + publish_all(subs0, published@, cap).1);
            }
        } else {
            proof {
                assert(txid_diff(digest@.subrange(0, j + 1), prev@) =~= txid_diff(
                    digest@.subrange(0, j as int),
                    prev@,
                ));
                assert(published@ =~= chain_events@ + removal_events(txid_diff(prev@, digest@))
                    + addition_events(txid_diff(digest@.subrange(0, j as int), prev@)));
            }
        }
        j = j + 1;
    }
    proof {
        assert(digest@.subrange(0, digest@.len() as int) =~= digest@);
        // the mempool key set now equals the digest
        lemma_txid_keep_membership(prev@, digest@);
        lemma_txid_diff_membership(digest@, prev@);
        let keys = mempool_keys(store.model().mempool);
        let keep = txid_keep(prev@, digest@);
        let added = txid_diff(digest@, prev@);
        assert forall|t: TransactionHash| #[trigger]
            keys.contains(t) <==> digest@.contains(t) by {
            if keys.contains(t) {
                let k = choose|k: int| 0 <= k < keys.len() && keys[k] == t;
                if k < keep.len() {
                    assert(keep[k] == t);
                    assert(keep.contains(t));
                } else {
                    assert(added[k - keep.len()] == t);
                    assert(added.contains(t));
                }
            }
            if digest@.contains(t) {
                if prev@.contains(t) {
                    assert(keep.contains(t));
                    let k = choose|k: int| 0 <= k < keep.len() && keep[k] == t;
                    assert(keys[k] == t);
                } else {
                    assert(added.contains(t));
                    let k = choose|k: int| 0 <= k < added.len() && added[k] == t;
                    assert(keys[keep.len() + k] == t);
                }
            }
        }
    }
    Ok(published)
}

} // verus!
