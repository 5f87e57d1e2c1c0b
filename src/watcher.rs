use vstd::prelude::*;

use crate::error::WatcherError;

verus! {

/// The index that follows a cursor: block 0 when nothing was synced yet.
pub open spec fn next_after(c: Option<u64>) -> int {
    match c {
        None => 0,
        Some(i) => i + 1,
    }
}

/// A cursor whose next index still fits in a `u64`.
pub open spec fn cursor_fits(c: Option<u64>) -> bool {
    match c {
        None => true,
        Some(i) => i < u64::MAX,
    }
}

/// Every cursor's next index fits in a `u64`.
pub open spec fn cursors_fit(cursors: Seq<Option<u64>>) -> bool {
    forall|i: int| 0 <= i < cursors.len() ==> #[trigger] cursor_fits(cursors[i])
}

/// The lowest next index over all cursors, or 0 when there are none.
pub open spec fn is_lowest_next(cursors: Seq<Option<u64>>, r: int) -> bool {
    &&& cursors.len() == 0 ==> r == 0
    &&& forall|i: int| 0 <= i < cursors.len() ==> r <= #[trigger] next_after(cursors[i])
    &&& cursors.len() > 0 ==> exists|i: int| 0 <= i < cursors.len() && r == next_after(cursors[i])
}

/// One block to fetch: the source (by position) and the block index.
#[derive(Clone, Copy, Debug, PartialEq, Eq, Structural)]
pub struct FetchRequest {
    pub source: usize,
    pub block_index: u64,
}

/// What one iteration of a sync pass does next.
#[derive(Debug)]
pub enum SyncStep {
    /// Every source has reached the bound: the pass has converged.
    Converged,
    /// Fetch one block for each of these sources, in parallel.
    Fetch(Vec<FetchRequest>),
}

/// Whether a source with cursor `c` still needs a block under the bound.
pub open spec fn needs_sync(c: Option<u64>, max_block_height: Option<u64>) -> bool {
    match max_block_height {
        None => true,
        Some(h) => match c {
            None => true,
            Some(i) => i < h,
        },
    }
}

/// The block to fetch for a source with cursor `c` in a pass from `start`.
pub open spec fn target_of(c: Option<u64>, start: u64) -> int {
    match c {
        None => start as int,
        Some(i) => i + 1,
    }
}

/// The fetches of one iteration over the first `n` sources, in source order.
pub open spec fn sync_targets(
    cursors: Seq<Option<u64>>,
    start: u64,
    max_block_height: Option<u64>,
    n: int,
) -> Seq<FetchRequest>
    decreases n,
{
    if n <= 0 {
        Seq::empty()
    } else {
        let prev = sync_targets(cursors, start, max_block_height, n - 1);
        if needs_sync(cursors[n - 1], max_block_height) {
            prev.push(
                FetchRequest {
                    source: (n - 1) as usize,
                    block_index: target_of(cursors[n - 1], start) as u64,
                },
            )
        } else {
            prev
        }
    }
}

/// The fetches of one iteration over all sources.
pub open spec fn all_targets(
    cursors: Seq<Option<u64>>,
    start: u64,
    max_block_height: Option<u64>,
) -> Seq<FetchRequest> {
    sync_targets(cursors, start, max_block_height, cursors.len() as int)
}

/// A pass has converged when no source needs a block under the bound.
pub open spec fn converged(cursors: Seq<Option<u64>>, max_block_height: Option<u64>) -> bool {
    forall|i: int| 0 <= i < cursors.len() ==> !#[trigger] needs_sync(cursors[i], max_block_height)
}

proof fn lemma_targets_empty(
    cursors: Seq<Option<u64>>,
    start: u64,
    max_block_height: Option<u64>,
    n: int,
)
    requires
        0 <= n <= cursors.len(),
    ensures
        sync_targets(cursors, start, max_block_height, n).len() == 0 <==> forall|i: int|
            0 <= i < n ==> !#[trigger] needs_sync(cursors[i], max_block_height),
        sync_targets(cursors, start, max_block_height, n).len() <= n,
    decreases n,
{
    if n > 0 {
        lemma_targets_empty(cursors, start, max_block_height, n - 1);
    }
}

/// Each source is fetched at most once per iteration.
pub open spec fn distinct_sources(reqs: Seq<FetchRequest>) -> bool {
    forall|i: int, j: int|
        0 <= i < j < reqs.len() ==> #[trigger] reqs[i].source != #[trigger] reqs[j].source
}

/// The fetches of an iteration name known sources, in increasing order.
pub open spec fn well_formed_targets(reqs: Seq<FetchRequest>, n: int) -> bool {
    &&& forall|i: int| 0 <= i < reqs.len() ==> #[trigger] reqs[i].source < n
    &&& forall|i: int, j: int|
        0 <= i < j < reqs.len() ==> #[trigger] reqs[i].source < #[trigger] reqs[j].source
}

/// The fetches of an iteration name each source at most once, in source
/// order, every source that still needs a block and no other, and for each
/// the block after its cursor, or the pass's start when it has none.
pub proof fn lemma_targets_well_formed(
    cursors: Seq<Option<u64>>,
    start: u64,
    max_block_height: Option<u64>,
    n: int,
)
    requires
        0 <= n <= cursors.len(),
        cursors.len() <= usize::MAX,
    ensures
        well_formed_targets(sync_targets(cursors, start, max_block_height, n), n),
        distinct_sources(sync_targets(cursors, start, max_block_height, n)),
        forall|i: int|
            0 <= i < sync_targets(cursors, start, max_block_height, n).len() ==> {
                let r = #[trigger] sync_targets(cursors, start, max_block_height, n)[i];
                &&& needs_sync(cursors[r.source as int], max_block_height)
                &&& r.block_index == target_of(cursors[r.source as int], start) as u64
            },
        forall|s: int|
            0 <= s < n && #[trigger] needs_sync(cursors[s], max_block_height) ==> exists|i: int|
                0 <= i < sync_targets(cursors, start, max_block_height, n).len() && sync_targets(
                    cursors,
                    start,
                    max_block_height,
                    n,
                )[i].source == s,
    decreases n,
{
    if n > 0 {
        lemma_targets_well_formed(cursors, start, max_block_height, n - 1);
        let prev = sync_targets(cursors, start, max_block_height, n - 1);
        let cur = sync_targets(cursors, start, max_block_height, n);
        assert(forall|i: int| 0 <= i < prev.len() ==> #[trigger] prev[i].source < n - 1);
        assert forall|s: int|
            0 <= s < n && #[trigger] needs_sync(cursors[s], max_block_height) implies exists|i: int|
                0 <= i < cur.len() && cur[i].source == s by {
            if s < n - 1 {
                let i = choose|i: int| 0 <= i < prev.len() && prev[i].source == s;
                assert(cur[i] == prev[i]);
            } else {
                assert(cur[cur.len() - 1].source == s);
            }
        }
        if needs_sync(cursors[n - 1], max_block_height) {
            assert(cur.last().source == n - 1);
            assert forall|i: int| 0 <= i < cur.len() - 1 implies #[trigger] cur[i] == prev[i] by {}
            assert forall|i: int, j: int| 0 <= i < j < cur.len() implies #[trigger] cur[i].source
                < #[trigger] cur[j].source by {
                if j == cur.len() - 1 {
                    assert(cur[i] == prev[i]);
                } else {
                    assert(cur[i] == prev[i] && cur[j] == prev[j]);
                }
            }
        }
    }
}

/// Without a bound a pass over at least one source never converges: each
/// iteration asks for a block from every source.
pub proof fn lemma_unbounded_never_converges(cursors: Seq<Option<u64>>, start: u64)
    requires
        cursors.len() > 0,
    ensures
        all_targets(cursors, start, None).len() > 0,
        !converged(cursors, None),
{
    lemma_targets_empty(cursors, start, None, cursors.len() as int);
    assert(needs_sync(cursors[0], None));
}

/// With bound `h`, a pass converges exactly when every source has a cursor
/// at `h` or beyond; each cursor is then at least `h - 1`.
pub proof fn lemma_bounded_convergence(cursors: Seq<Option<u64>>, start: u64, h: u64)
    ensures
        all_targets(cursors, start, Some(h)).len() == 0 <==> converged(cursors, Some(h)),
        converged(cursors, Some(h)) <==> forall|i: int|
            0 <= i < cursors.len() ==> (#[trigger] cursors[i] matches Some(c) && c >= h),
        converged(cursors, Some(h)) ==> forall|i: int|
            0 <= i < cursors.len() ==> (#[trigger] cursors[i] matches Some(c) && c >= h - 1),
{
    lemma_targets_empty(cursors, start, Some(h), cursors.len() as int);
    if converged(cursors, Some(h)) {
        assert forall|i: int| 0 <= i < cursors.len() implies (#[trigger] cursors[i] matches Some(
            c,
        ) && c >= h) by {
            assert(!needs_sync(cursors[i], Some(h)));
        }
    }
}

/// Whether some URL of `v` reads `u`.
pub open spec fn has_url(v: Seq<String>, u: Seq<char>) -> bool {
    exists|j: int| 0 <= j < v.len() && v[j]@ == u
}

/// Every URL of `a` is among those of `b`.
pub open spec fn covers(a: Seq<String>, b: Seq<String>) -> bool {
    forall|i: int| 0 <= i < a.len() ==> has_url(b, #[trigger] a[i]@)
}

/// The two lists name the same set of sources.
pub open spec fn same_sources(a: Seq<String>, b: Seq<String>) -> bool {
    covers(a, b) && covers(b, a)
}

fn contains_url(v: &Vec<String>, u: &String) -> (r: bool)
    ensures
        r == has_url(v@, u@),
{
    let mut i: usize = 0;
    while i < v.len()
        invariant
            0 <= i <= v.len(),
            forall|j: int| 0 <= j < i ==> v@[j]@ != u@,
        decreases v.len() - i,
    {
        if v[i] == *u {
            return true;
        }
        i = i + 1;
    }
    false
}

fn covers_all(a: &Vec<String>, b: &Vec<String>) -> (r: bool)
    ensures
        r == covers(a@, b@),
{
    let mut i: usize = 0;
    while i < a.len()
        invariant
            0 <= i <= a.len(),
            forall|j: int| 0 <= j < i ==> has_url(b@, #[trigger] a@[j]@),
        decreases a.len() - i,
    {
        if !contains_url(b, &a[i]) {
            return false;
        }
        i = i + 1;
    }
    true
}

/// Watches several archive sources and decides what to fetch and record.
pub struct Watcher {
    /// Base URL of each source; a source is named by its position here.
    pub source_urls: Vec<String>,
    /// Whether fetched block data is stored besides the signatures.
    pub store_block_data: bool,
}

impl Watcher {
    /// A watcher over the sources that the fetcher was configured with.
    /// The store must have been configured with the same set of source URLs,
    /// else the configuration is refused.
    pub fn new(db_urls: &Vec<String>, fetcher_urls: Vec<String>, store_block_data: bool) -> (r:
        Result<Watcher, WatcherError>)
        ensures
            r is Ok <==> same_sources(fetcher_urls@, db_urls@),
            r matches Ok(w) ==> w.source_urls@ == fetcher_urls@ && w.store_block_data
                == store_block_data,
            r is Err ==> r matches Err(WatcherError::SourceMismatch),
    {
        if covers_all(&fetcher_urls, db_urls) && covers_all(db_urls, &fetcher_urls) {
            Ok(Watcher { source_urls: fetcher_urls, store_block_data })
        } else {
            Err(WatcherError::SourceMismatch)
        }
    }

    /// The lowest next block to sync over the cursors read from the store,
    /// one per source.
    pub fn lowest_next_block_to_sync(&self, last_synced: &Vec<Option<u64>>) -> (r: u64)
        requires
            cursors_fit(last_synced@),
        ensures
            is_lowest_next(last_synced@, r as int),
    {
        let mut lowest: Option<u64> = None;
        let mut i: usize = 0;
        while i < last_synced.len()
            invariant
                0 <= i <= last_synced.len(),
                cursors_fit(last_synced@),
                i == 0 <==> lowest is None,
                lowest matches Some(m) ==> {
                    &&& forall|j: int| 0 <= j < i ==> m <= #[trigger] next_after(last_synced@[j])
                    &&& exists|j: int| 0 <= j < i && m == next_after(last_synced@[j])
                },
            decreases last_synced.len() - i,
        {
            assert(cursor_fits(last_synced@[i as int]));
            let next: u64 = match last_synced[i] {
                None => 0,
                Some(index) => index + 1,
            };
            lowest = match lowest {
                None => Some(next),
                Some(m) => if next < m { Some(next) } else { Some(m) },
            };
            i = i + 1;
        }
        match lowest {
            None => 0,
            Some(m) => m,
        }
    }
    /// Plans one iteration of a sync pass from `start`, bounded by
    /// `max_block_height` when it is given, over the cursors just read from
    /// the store (one per source, in source order). The bound is an inclusive
    /// block index: a source is done once its cursor is at the bound or
    /// beyond, so block `max_block_height` itself is still fetched. Each other
    /// source is asked for the block after its cursor, or for `start` when it
    /// has none.
    pub fn sync_blocks(
        &self,
        start: u64,
        max_block_height: Option<u64>,
        last_synced: &Vec<Option<u64>>,
    ) -> (r: SyncStep)
        requires
            cursors_fit(last_synced@),
            last_synced.len() == self.source_urls.len(),
        ensures
            r is Converged <==> converged(last_synced@, max_block_height),
            r matches SyncStep::Fetch(reqs) ==> reqs@ == all_targets(
                last_synced@,
                start,
                max_block_height,
            ),
            r matches SyncStep::Fetch(reqs) ==> well_formed_targets(
                reqs@,
                last_synced@.len() as int,
            ) && distinct_sources(reqs@),
            r matches SyncStep::Fetch(reqs) ==> forall|i: int|
                0 <= i < reqs@.len() ==> #[trigger] reqs@[i].source < self.source_urls.len(),
    {
        let mut reqs: Vec<FetchRequest> = Vec::new();
        let mut i: usize = 0;
        while i < last_synced.len()
            invariant
                0 <= i <= last_synced.len(),
                cursors_fit(last_synced@),
                reqs@ == sync_targets(last_synced@, start, max_block_height, i as int),
            decreases last_synced.len() - i,
        {
            let c = last_synced[i];
            let needed = match max_block_height {
                None => true,
                Some(h) => match c {
                    None => true,
                    Some(index) => index < h,
                },
            };
            if needed {
                assert(cursor_fits(last_synced@[i as int]));
                let block_index: u64 = match c {
                    None => start,
                    Some(index) => index + 1,
                };
                reqs.push(FetchRequest { source: i, block_index });
            }
            i = i + 1;
        }
        proof {
            lemma_targets_empty(last_synced@, start, max_block_height, last_synced@.len() as int);
            lemma_targets_well_formed(
                last_synced@,
                start,
                max_block_height,
                last_synced@.len() as int,
            );
        }
        if reqs.len() == 0 {
            SyncStep::Converged
        } else {
            SyncStep::Fetch(reqs)
        }
    }
}

} // verus!
