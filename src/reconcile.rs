use vstd::prelude::*;

use crate::error::WatcherError;
use crate::watcher::{
    all_targets, cursors_fit, cursor_fits, distinct_sources, lemma_targets_well_formed, next_after,
    FetchRequest, Watcher,
};

verus! {

/// The result of one fetch, as far as reconciliation reads it.
#[derive(Clone, Copy, Debug, PartialEq, Eq, Structural)]
pub enum FetchOutcome {
    /// The block was fetched; it may carry a signature.
    Fetched { has_signature: bool },
    /// The fetch failed; the source is skipped this iteration.
    Failed,
}

/// A write to the cursor store.
#[derive(Clone, Copy, Debug, PartialEq, Eq, Structural)]
pub enum StoreOp {
    /// Store the fetched block data; leaves the cursor alone.
    AddBlockData { source: usize, block_index: u64 },
    /// Store the block's signature; moves the source's cursor to the block.
    AddSignature { source: usize, block_index: u64 },
    /// Move the source's cursor to the block explicitly.
    UpdateLastSynced { source: usize, block_index: u64 },
}

/// How the store answered a request to add block data.
#[derive(Clone, Copy, Debug, PartialEq, Eq, Structural)]
pub enum BlockDataWrite {
    Written,
    AlreadyExists,
    Failed,
}

/// The writes of one iteration, and whether any source made progress.
#[derive(Debug)]
pub struct Reconciliation {
    pub ops: Vec<StoreOp>,
    pub progressed: bool,
}

/// The writes for one fetch result.
pub open spec fn ops_for(store_block_data: bool, req: FetchRequest, out: FetchOutcome) -> Seq<
    StoreOp,
> {
    match out {
        FetchOutcome::Failed => Seq::empty(),
        FetchOutcome::Fetched { has_signature } => {
            let data = if store_block_data {
                seq![StoreOp::AddBlockData { source: req.source, block_index: req.block_index }]
            } else {
                Seq::empty()
            };
            let advance = if has_signature {
                StoreOp::AddSignature { source: req.source, block_index: req.block_index }
            } else {
                StoreOp::UpdateLastSynced { source: req.source, block_index: req.block_index }
            };
            data.push(advance)
        },
    }
}

/// The writes for the first `n` fetch results, in order.
pub open spec fn all_ops(
    store_block_data: bool,
    reqs: Seq<FetchRequest>,
    outs: Seq<FetchOutcome>,
    n: int,
) -> Seq<StoreOp>
    decreases n,
{
    if n <= 0 {
        Seq::empty()
    } else {
        all_ops(store_block_data, reqs, outs, n - 1) + ops_for(
            store_block_data,
            reqs[n - 1],
            outs[n - 1],
        )
    }
}

/// The cursor of source `s`, starting at `c`, after the store has applied
/// `ops` in order.
pub open spec fn cursor_after(c: Option<u64>, s: usize, ops: Seq<StoreOp>) -> Option<u64>
    decreases ops.len(),
{
    if ops.len() == 0 {
        c
    } else {
        let before = cursor_after(c, s, ops.drop_last());
        match ops.last() {
            StoreOp::AddSignature { source, block_index } => if source == s {
                Some(block_index)
            } else {
                before
            },
            StoreOp::UpdateLastSynced { source, block_index } => if source == s {
                Some(block_index)
            } else {
                before
            },
            StoreOp::AddBlockData { .. } => before,
        }
    }
}

proof fn lemma_cursor_after_append(c: Option<u64>, s: usize, a: Seq<StoreOp>, b: Seq<StoreOp>)
    ensures
        cursor_after(c, s, a + b) == cursor_after(cursor_after(c, s, a), s, b),
    decreases b.len(),
{
    if b.len() == 0 {
        assert(a + b =~= a);
    } else {
        assert((a + b).drop_last() =~= a + b.drop_last());
        assert((a + b).last() == b.last());
        lemma_cursor_after_append(c, s, a, b.drop_last());
    }
}

proof fn lemma_cursor_after_one(
    c: Option<u64>,
    s: usize,
    store_block_data: bool,
    req: FetchRequest,
    out: FetchOutcome,
)
    ensures
        cursor_after(c, s, ops_for(store_block_data, req, out)) == if req.source == s
            && out is Fetched {
            Some(req.block_index)
        } else {
            c
        },
{
    let ops = ops_for(store_block_data, req, out);
    reveal_with_fuel(cursor_after, 3);
    if out is Fetched {
        if store_block_data {
            assert(ops.drop_last().drop_last() =~= Seq::<StoreOp>::empty());
        } else {
            assert(ops.drop_last() =~= Seq::<StoreOp>::empty());
        }
    }
}

/// After an iteration's writes, a source that was fetched successfully has
/// its cursor on the fetched block, a source whose fetch failed keeps its
/// cursor, and a source that was not fetched keeps its cursor too. So a
/// failing source never holds back the others.
pub proof fn lemma_reconcile_cursors(
    store_block_data: bool,
    reqs: Seq<FetchRequest>,
    outs: Seq<FetchOutcome>,
    c: Option<u64>,
    s: usize,
)
    requires
        reqs.len() == outs.len(),
        distinct_sources(reqs),
    ensures
        forall|i: int|
            0 <= i < reqs.len() && #[trigger] reqs[i].source == s ==> cursor_after(
                c,
                s,
                all_ops(store_block_data, reqs, outs, reqs.len() as int),
            ) == if outs[i] is Fetched {
                Some(reqs[i].block_index)
            } else {
                c
            },
        (forall|i: int| 0 <= i < reqs.len() ==> #[trigger] reqs[i].source != s) ==> cursor_after(
            c,
            s,
            all_ops(store_block_data, reqs, outs, reqs.len() as int),
        ) == c,
{
    lemma_reconcile_prefix(store_block_data, reqs, outs, c, s, reqs.len() as int);
}

proof fn lemma_reconcile_prefix(
    store_block_data: bool,
    reqs: Seq<FetchRequest>,
    outs: Seq<FetchOutcome>,
    c: Option<u64>,
    s: usize,
    n: int,
)
    requires
        0 <= n <= reqs.len(),
        reqs.len() == outs.len(),
        distinct_sources(reqs),
    ensures
        forall|i: int|
            0 <= i < n && #[trigger] reqs[i].source == s ==> cursor_after(
                c,
                s,
                all_ops(store_block_data, reqs, outs, n),
            ) == if outs[i] is Fetched {
                Some(reqs[i].block_index)
            } else {
                c
            },
        (forall|i: int| 0 <= i < n ==> #[trigger] reqs[i].source != s) ==> cursor_after(
            c,
            s,
            all_ops(store_block_data, reqs, outs, n),
        ) == c,
    decreases n,
{
    if n > 0 {
        lemma_reconcile_prefix(store_block_data, reqs, outs, c, s, n - 1);
        let prev = all_ops(store_block_data, reqs, outs, n - 1);
        lemma_cursor_after_append(c, s, prev, ops_for(store_block_data, reqs[n - 1], outs[n - 1]));
        lemma_cursor_after_one(
            cursor_after(c, s, prev),
            s,
            store_block_data,
            reqs[n - 1],
            outs[n - 1],
        );
        if reqs[n - 1].source == s {
            assert forall|i: int| 0 <= i < n - 1 implies #[trigger] reqs[i].source != s by {
                assert(reqs[i].source != reqs[n - 1].source);
            }
        }
    }
}

proof fn lemma_failed_prefix_writes_nothing(
    store_block_data: bool,
    reqs: Seq<FetchRequest>,
    outs: Seq<FetchOutcome>,
    n: int,
)
    requires
        0 <= n <= outs.len(),
        forall|i: int| 0 <= i < outs.len() ==> #[trigger] outs[i] is Failed,
    ensures
        all_ops(store_block_data, reqs, outs, n) =~= Seq::<StoreOp>::empty(),
    decreases n,
{
    if n > 0 {
        lemma_failed_prefix_writes_nothing(store_block_data, reqs, outs, n - 1);
        assert(outs[n - 1] is Failed);
    }
}

/// When every fetch of an iteration failed, the iteration writes nothing,
/// leaves every cursor where it was, and reports no progress, so the pass
/// ends.
pub proof fn lemma_all_failed_writes_nothing(
    store_block_data: bool,
    reqs: Seq<FetchRequest>,
    outs: Seq<FetchOutcome>,
)
    requires
        reqs.len() == outs.len(),
        forall|i: int| 0 <= i < outs.len() ==> #[trigger] outs[i] is Failed,
    ensures
        all_ops(store_block_data, reqs, outs, reqs.len() as int) =~= Seq::<StoreOp>::empty(),
        forall|c: Option<u64>, s: usize|
            #[trigger] cursor_after(c, s, all_ops(store_block_data, reqs, outs, reqs.len() as int))
                == c,
        !any_fetched(outs),
{
    lemma_failed_prefix_writes_nothing(store_block_data, reqs, outs, reqs.len() as int);
}

/// An iteration never moves a source back: after the writes for the
/// fetches that a pass asked for, each source's next block is at least what
/// it was before. So the lowest next block to sync never decreases.
pub proof fn lemma_iteration_keeps_progress(
    store_block_data: bool,
    cursors: Seq<Option<u64>>,
    start: u64,
    max_block_height: Option<u64>,
    outs: Seq<FetchOutcome>,
    s: usize,
)
    requires
        cursors.len() <= usize::MAX,
        cursors_fit(cursors),
        s < cursors.len(),
        outs.len() == all_targets(cursors, start, max_block_height).len(),
    ensures
        next_after(
            cursor_after(
                cursors[s as int],
                s,
                all_ops(
                    store_block_data,
                    all_targets(cursors, start, max_block_height),
                    outs,
                    outs.len() as int,
                ),
            ),
        ) >= next_after(cursors[s as int]),
{
    let reqs = all_targets(cursors, start, max_block_height);
    lemma_targets_well_formed(cursors, start, max_block_height, cursors.len() as int);
    lemma_reconcile_cursors(store_block_data, reqs, outs, cursors[s as int], s);
    assert(cursor_fits(cursors[s as int]));
    if exists|i: int| 0 <= i < reqs.len() && #[trigger] reqs[i].source == s {
        let i = choose|i: int| 0 <= i < reqs.len() && #[trigger] reqs[i].source == s;
        assert(reqs[i].source == s);
    }
}

/// Whether any fetch of the iteration succeeded.
pub open spec fn any_fetched(outs: Seq<FetchOutcome>) -> bool {
    exists|i: int| 0 <= i < outs.len() && #[trigger] outs[i] is Fetched
}

/// Whether the caller goes on after the store's answer to an add of block
/// data: only a failure other than a duplicate stops it.
pub open spec fn write_accepted(w: BlockDataWrite) -> bool {
    !(w is Failed)
}

/// Storing the same block twice never fails the caller: the second add is
/// answered `AlreadyExists`, which is accepted, and the write that moves the
/// source's cursor still follows the block data among the iteration's writes.
pub proof fn lemma_duplicate_block_data_is_benign(req: FetchRequest, has_signature: bool)
    ensures
        write_accepted(BlockDataWrite::AlreadyExists),
        ops_for(true, req, FetchOutcome::Fetched { has_signature }) == seq![
            StoreOp::AddBlockData { source: req.source, block_index: req.block_index },
            if has_signature {
                StoreOp::AddSignature { source: req.source, block_index: req.block_index }
            } else {
                StoreOp::UpdateLastSynced { source: req.source, block_index: req.block_index }
            },
        ],
        forall|c: Option<u64>|
            #[trigger] cursor_after(c, req.source, ops_for(true, req, FetchOutcome::Fetched { has_signature }))
                == Some(req.block_index),
{
    lemma_cursor_after_one(None, req.source, true, req, FetchOutcome::Fetched { has_signature });
    assert forall|c: Option<u64>|
        #[trigger] cursor_after(c, req.source, ops_for(true, req, FetchOutcome::Fetched { has_signature }))
            == Some(req.block_index) by {
        lemma_cursor_after_one(c, req.source, true, req, FetchOutcome::Fetched { has_signature });
    }
    assert(ops_for(true, req, FetchOutcome::Fetched { has_signature }) =~= seq![
        StoreOp::AddBlockData { source: req.source, block_index: req.block_index },
        if has_signature {
            StoreOp::AddSignature { source: req.source, block_index: req.block_index }
        } else {
            StoreOp::UpdateLastSynced { source: req.source, block_index: req.block_index }
        },
    ]);
}

/// What the caller of an add of block data makes of the store's answer: a
/// block that is already there is no failure.
pub fn block_data_write_result(w: BlockDataWrite) -> (r: Result<(), WatcherError>)
    ensures
        r is Ok <==> write_accepted(w),
        r is Err ==> r == Err::<(), WatcherError>(WatcherError::Store),
{
    match w {
        BlockDataWrite::Failed => Err(WatcherError::Store),
        _ => Ok(()),
    }
}

impl Watcher {
    /// The store writes for the results of one iteration's fetches, in the
    /// order of the requests, and whether any source made progress. A pass
    /// goes on with another iteration only when one did.
    pub fn reconcile(&self, requests: &Vec<FetchRequest>, outcomes: &Vec<FetchOutcome>) -> (r:
        Reconciliation)
        requires
            requests.len() == outcomes.len(),
        ensures
            r.ops@ == all_ops(
                self.store_block_data,
                requests@,
                outcomes@,
                requests@.len() as int,
            ),
            r.progressed == any_fetched(outcomes@),
    {
        let mut ops: Vec<StoreOp> = Vec::new();
        let mut progressed = false;
        let mut i: usize = 0;
        while i < requests.len()
            invariant
                0 <= i <= requests.len(),
                requests.len() == outcomes.len(),
                ops@ == all_ops(self.store_block_data, requests@, outcomes@, i as int),
                progressed == exists|j: int| 0 <= j < i && #[trigger] outcomes@[j] is Fetched,
            decreases requests.len() - i,
        {
            let req = requests[i];
            let ghost before = ops@;
            match outcomes[i] {
                FetchOutcome::Failed => {
                    assert(ops_for(self.store_block_data, req, outcomes@[i as int])
                        =~= Seq::<StoreOp>::empty());
                    assert(ops@ =~= before + Seq::<StoreOp>::empty());
                },
                FetchOutcome::Fetched { has_signature } => {
                    if self.store_block_data {
                        ops.push(
                            StoreOp::AddBlockData { source: req.source, block_index: req.block_index },
                        );
                    }
                    if has_signature {
                        ops.push(
                            StoreOp::AddSignature { source: req.source, block_index: req.block_index },
                        );
                    } else {
                        ops.push(
                            StoreOp::UpdateLastSynced {
                                source: req.source,
                                block_index: req.block_index,
                            },
                        );
                    }
                    assert(ops@ =~= before + ops_for(
                        self.store_block_data,
                        req,
                        outcomes@[i as int],
                    ));
                    progressed = true;
                },
            }
            i = i + 1;
        }
        Reconciliation { ops, progressed }
    }
}

} // verus!
