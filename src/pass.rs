use vstd::prelude::*;

use crate::reconcile::{
    all_ops, any_fetched, cursor_after, lemma_all_failed_writes_nothing, lemma_reconcile_cursors,
    FetchOutcome, StoreOp,
};
use crate::watcher::{
    all_targets, converged, lemma_targets_well_formed, needs_sync, FetchRequest,
};

verus! {

// A whole sync pass is a run of iterations: each plans its fetches with
// `Watcher::sync_blocks`, turns their results into writes with
// `Watcher::reconcile`, and lets the store apply them. The pass ends with
// `true` when it has converged, and with `false` after an iteration in which
// no fetch succeeded.

/// The results of an iteration's fetches, in request order, when the fetch
/// for source `s` gives `by_source[s]`.
pub open spec fn request_outcomes(reqs: Seq<FetchRequest>, by_source: Seq<FetchOutcome>) -> Seq<
    FetchOutcome,
> {
    Seq::new(reqs.len(), |i: int| by_source[reqs[i].source as int])
}

/// The cursors after the store has applied `ops`.
pub open spec fn apply_writes(cursors: Seq<Option<u64>>, ops: Seq<StoreOp>) -> Seq<Option<u64>> {
    Seq::new(cursors.len(), |s: int| cursor_after(cursors[s], s as usize, ops))
}

/// The writes of one iteration over `cursors`, with per-source fetch results.
pub open spec fn iteration_writes(
    store_block_data: bool,
    cursors: Seq<Option<u64>>,
    start: u64,
    max_block_height: Option<u64>,
    by_source: Seq<FetchOutcome>,
) -> Seq<StoreOp> {
    let reqs = all_targets(cursors, start, max_block_height);
    all_ops(store_block_data, reqs, request_outcomes(reqs, by_source), reqs.len() as int)
}

/// A pass from `cursors` in which iteration `k` sees the fetch results
/// `outs[k]` (one per source): its result (`None` while it has not ended
/// within those iterations) and the cursors it leaves.
pub open spec fn run_pass(
    store_block_data: bool,
    cursors: Seq<Option<u64>>,
    start: u64,
    max_block_height: Option<u64>,
    outs: Seq<Seq<FetchOutcome>>,
) -> (Option<bool>, Seq<Option<u64>>)
    decreases outs.len(),
{
    if converged(cursors, max_block_height) {
        (Some(true), cursors)
    } else if outs.len() == 0 {
        (None, cursors)
    } else {
        let reqs = all_targets(cursors, start, max_block_height);
        let next = apply_writes(
            cursors,
            iteration_writes(store_block_data, cursors, start, max_block_height, outs[0]),
        );
        if !any_fetched(request_outcomes(reqs, outs[0])) {
            (Some(false), next)
        } else {
            run_pass(store_block_data, next, start, max_block_height, outs.drop_first())
        }
    }
}

/// Per-source results for each iteration cover every source.
pub open spec fn outcomes_cover(outs: Seq<Seq<FetchOutcome>>, n: int) -> bool {
    forall|k: int| 0 <= k < outs.len() ==> (#[trigger] outs[k]).len() == n
}

/// A pass without a bound over at least one source never ends with `true`:
/// it ends only with `false`, after an iteration in which every fetch failed.
pub proof fn lemma_unbounded_pass_never_true(
    store_block_data: bool,
    cursors: Seq<Option<u64>>,
    start: u64,
    outs: Seq<Seq<FetchOutcome>>,
)
    requires
        cursors.len() > 0,
    ensures
        run_pass(store_block_data, cursors, start, None, outs).0 != Some(true),
    decreases outs.len(),
{
    assert(needs_sync(cursors[0], None));
    if outs.len() > 0 {
        let next = apply_writes(
            cursors,
            iteration_writes(store_block_data, cursors, start, None, outs[0]),
        );
        lemma_unbounded_pass_never_true(store_block_data, next, start, outs.drop_first());
    }
}

/// A pass whose first iteration has work and sees every fetch fail ends at
/// once with `false` and leaves every cursor as it was.
pub proof fn lemma_all_failed_pass(
    store_block_data: bool,
    cursors: Seq<Option<u64>>,
    start: u64,
    max_block_height: Option<u64>,
    outs: Seq<Seq<FetchOutcome>>,
)
    requires
        cursors.len() <= usize::MAX,
        !converged(cursors, max_block_height),
        outs.len() > 0,
        outcomes_cover(outs, cursors.len() as int),
        forall|s: int| 0 <= s < cursors.len() ==> #[trigger] outs[0][s] is Failed,
    ensures
        run_pass(store_block_data, cursors, start, max_block_height, outs) == (
            Some(false),
            cursors,
        ),
{
    let reqs = all_targets(cursors, start, max_block_height);
    let o = request_outcomes(reqs, outs[0]);
    lemma_targets_well_formed(cursors, start, max_block_height, cursors.len() as int);
    assert forall|i: int| 0 <= i < o.len() implies #[trigger] o[i] is Failed by {
        assert(reqs[i].source < cursors.len());
        assert(outs[0][reqs[i].source as int] is Failed);
    }
    lemma_all_failed_writes_nothing(store_block_data, reqs, o);
    let next = apply_writes(
        cursors,
        iteration_writes(store_block_data, cursors, start, max_block_height, outs[0]),
    );
    assert(next =~= cursors);
}

/// A source whose every fetch fails keeps its cursor through the whole
/// pass. Within each iteration the other sources' cursors move on their own
/// results alone (see `lemma_reconcile_cursors`).
pub proof fn lemma_failing_source_keeps_cursor(
    store_block_data: bool,
    cursors: Seq<Option<u64>>,
    start: u64,
    max_block_height: Option<u64>,
    outs: Seq<Seq<FetchOutcome>>,
    s: usize,
)
    requires
        cursors.len() <= usize::MAX,
        s < cursors.len(),
        outcomes_cover(outs, cursors.len() as int),
        forall|k: int| 0 <= k < outs.len() ==> #[trigger] outs[k][s as int] is Failed,
    ensures
        run_pass(store_block_data, cursors, start, max_block_height, outs).1.len()
            == cursors.len(),
        run_pass(store_block_data, cursors, start, max_block_height, outs).1[s as int]
            == cursors[s as int],
    decreases outs.len(),
{
    if !converged(cursors, max_block_height) && outs.len() > 0 {
        let reqs = all_targets(cursors, start, max_block_height);
        let o = request_outcomes(reqs, outs[0]);
        lemma_targets_well_formed(cursors, start, max_block_height, cursors.len() as int);
        lemma_reconcile_cursors(store_block_data, reqs, o, cursors[s as int], s);
        let next = apply_writes(
            cursors,
            iteration_writes(store_block_data, cursors, start, max_block_height, outs[0]),
        );
        assert(outs[0][s as int] is Failed);
        if exists|i: int| 0 <= i < reqs.len() && #[trigger] reqs[i].source == s {
            let i = choose|i: int| 0 <= i < reqs.len() && #[trigger] reqs[i].source == s;
            assert(o[i] is Failed);
        }
        assert(next[s as int] == cursors[s as int]);
        let rest = outs.drop_first();
        assert forall|k: int| 0 <= k < rest.len() implies #[trigger] rest[k][s as int] is Failed by {
            assert(rest[k] == outs[k + 1]);
        }
        assert forall|k: int| 0 <= k < rest.len() implies (#[trigger] rest[k]).len()
            == cursors.len() by {
            assert(rest[k] == outs[k + 1]);
        }
        lemma_failing_source_keeps_cursor(store_block_data, next, start, max_block_height, rest, s);
    }
}

} // verus!
