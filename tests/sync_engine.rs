use watcher::driver::{plan_iteration, DriverAction, DriverStep};
use watcher::error::WatcherError;
use watcher::reconcile::{block_data_write_result, BlockDataWrite, FetchOutcome, StoreOp};
use watcher::watcher::{FetchRequest, SyncStep, Watcher};

fn watcher_of(n: usize, store_block_data: bool) -> Watcher {
    let urls: Vec<String> = (0..n).map(|i| format!("https://source{}.example.com/", i)).collect();
    Watcher::new(&urls, urls.clone(), store_block_data).unwrap()
}

/// Applies store writes to cursors as the store does.
fn apply(cursors: &mut Vec<Option<u64>>, ops: &[StoreOp]) {
    for op in ops {
        match *op {
            StoreOp::AddBlockData { .. } => {}
            StoreOp::AddSignature { source, block_index } => cursors[source] = Some(block_index),
            StoreOp::UpdateLastSynced { source, block_index } => {
                cursors[source] = Some(block_index)
            }
        }
    }
}

fn fetch_targets(step: SyncStep) -> Vec<FetchRequest> {
    match step {
        SyncStep::Fetch(reqs) => reqs,
        SyncStep::Converged => panic!("expected fetches"),
    }
}

#[test]
fn lowest_next_of_no_sources_is_zero() {
    let w = watcher_of(0, false);
    assert_eq!(w.lowest_next_block_to_sync(&vec![]), 0);
}

#[test]
fn lowest_next_treats_unsynced_as_zero() {
    let w = watcher_of(2, false);
    assert_eq!(w.lowest_next_block_to_sync(&vec![Some(5), None]), 0);
}

#[test]
fn lowest_next_is_min_of_next_indices() {
    let w = watcher_of(3, false);
    assert_eq!(w.lowest_next_block_to_sync(&vec![Some(7), Some(2), Some(4)]), 3);
}

#[test]
fn unbounded_pass_never_converges() {
    let w = watcher_of(2, false);
    let reqs = fetch_targets(w.sync_blocks(0, None, &vec![Some(100), Some(200)]));
    assert_eq!(reqs.len(), 2);
}

#[test]
fn bounded_pass_converges_when_all_reach_bound() {
    let w = watcher_of(2, false);
    assert!(matches!(w.sync_blocks(0, Some(3), &vec![Some(3), Some(8)]), SyncStep::Converged));
}

#[test]
fn bounded_pass_drops_sources_at_bound() {
    let w = watcher_of(3, false);
    let reqs = fetch_targets(w.sync_blocks(4, Some(3), &vec![Some(3), Some(2), None]));
    assert_eq!(
        reqs,
        vec![
            FetchRequest { source: 1, block_index: 3 },
            FetchRequest { source: 2, block_index: 4 },
        ]
    );
}

#[test]
fn no_sources_converge_at_once() {
    let w = watcher_of(0, false);
    assert!(matches!(w.sync_blocks(0, Some(3), &vec![]), SyncStep::Converged));
}

#[test]
fn duplicate_block_data_is_benign() {
    assert_eq!(block_data_write_result(BlockDataWrite::Written), Ok(()));
    assert_eq!(block_data_write_result(BlockDataWrite::AlreadyExists), Ok(()));
    assert_eq!(block_data_write_result(BlockDataWrite::AlreadyExists), Ok(()));
}

#[test]
fn other_store_failure_is_fatal() {
    assert_eq!(block_data_write_result(BlockDataWrite::Failed), Err(WatcherError::Store));
}

#[test]
fn failing_source_does_not_block_others() {
    let w = watcher_of(3, true);
    let mut cursors = vec![Some(1), Some(1), None];
    let reqs = fetch_targets(w.sync_blocks(0, None, &cursors));
    let outs = vec![
        FetchOutcome::Fetched { has_signature: true },
        FetchOutcome::Failed,
        FetchOutcome::Fetched { has_signature: false },
    ];
    let rec = w.reconcile(&reqs, &outs);
    assert!(rec.progressed);
    assert_eq!(
        rec.ops,
        vec![
            StoreOp::AddBlockData { source: 0, block_index: 2 },
            StoreOp::AddSignature { source: 0, block_index: 2 },
            StoreOp::AddBlockData { source: 2, block_index: 0 },
            StoreOp::UpdateLastSynced { source: 2, block_index: 0 },
        ]
    );
    apply(&mut cursors, &rec.ops);
    assert_eq!(cursors, vec![Some(2), Some(1), Some(0)]);
}

#[test]
fn block_data_not_stored_when_disabled() {
    let w = watcher_of(1, false);
    let reqs = vec![FetchRequest { source: 0, block_index: 9 }];
    let rec = w.reconcile(&reqs, &vec![FetchOutcome::Fetched { has_signature: true }]);
    assert_eq!(rec.ops, vec![StoreOp::AddSignature { source: 0, block_index: 9 }]);
}

#[test]
fn all_failed_iteration_writes_nothing() {
    let w = watcher_of(2, true);
    let cursors = vec![Some(4), None];
    let reqs = fetch_targets(w.sync_blocks(0, Some(10), &cursors));
    let rec = w.reconcile(&reqs, &vec![FetchOutcome::Failed, FetchOutcome::Failed]);
    assert!(!rec.progressed);
    assert!(rec.ops.is_empty());
}

#[test]
fn two_sources_sync_three_blocks_with_signatures() {
    let w = watcher_of(2, false);
    let mut cursors: Vec<Option<u64>> = vec![None, None];
    for expected in 0..3u64 {
        let reqs = fetch_targets(w.sync_blocks(0, Some(3), &cursors));
        assert!(reqs.iter().all(|r| r.block_index == expected));
        let outs = vec![FetchOutcome::Fetched { has_signature: true }; reqs.len()];
        let rec = w.reconcile(&reqs, &outs);
        assert!(rec.progressed);
        apply(&mut cursors, &rec.ops);
    }
    assert_eq!(cursors, vec![Some(2), Some(2)]);
    assert_eq!(w.lowest_next_block_to_sync(&cursors), 3);
    // The bound is a block index: a pass to 2 has now converged, while a
    // pass to 3 still asks each source for block 3.
    assert!(matches!(w.sync_blocks(0, Some(2), &cursors), SyncStep::Converged));
    let reqs = fetch_targets(w.sync_blocks(0, Some(3), &cursors));
    assert!(reqs.iter().all(|r| r.block_index == 3));
}

#[test]
fn behind_ledger_targets_next_and_start() {
    let w = watcher_of(2, false);
    let cursors = vec![Some(5), None];
    let lowest = w.lowest_next_block_to_sync(&cursors);
    assert_eq!(lowest, 0);
    let step = plan_iteration(false, lowest, 10).unwrap();
    assert!(step.behind);
    assert_eq!(step.action, DriverAction::Sync { start: 0, max_block_height: 9 });
    let reqs = fetch_targets(w.sync_blocks(0, Some(9), &cursors));
    assert_eq!(
        reqs,
        vec![
            FetchRequest { source: 0, block_index: 6 },
            FetchRequest { source: 1, block_index: 0 },
        ]
    );
}

#[test]
fn driver_stops_when_requested() {
    assert_eq!(plan_iteration(true, 0, 10), None);
}

#[test]
fn driver_waits_when_caught_up() {
    assert_eq!(
        plan_iteration(false, 10, 10),
        Some(DriverStep { behind: false, action: DriverAction::Wait })
    );
}

#[test]
fn driver_caps_pass_by_budget() {
    assert_eq!(
        plan_iteration(false, 5, 100).unwrap().action,
        DriverAction::Sync { start: 5, max_block_height: 15 }
    );
}

#[test]
fn driver_budget_near_top_of_range() {
    assert_eq!(
        plan_iteration(false, u64::MAX - 3, u64::MAX).unwrap().action,
        DriverAction::Sync { start: u64::MAX - 3, max_block_height: u64::MAX - 1 }
    );
}

#[test]
fn new_accepts_same_sources_in_other_order() {
    let a = vec!["https://a.example/".to_string(), "https://b.example/".to_string()];
    let b = vec!["https://b.example/".to_string(), "https://a.example/".to_string()];
    let w = Watcher::new(&a, b.clone(), true).unwrap();
    assert_eq!(w.source_urls, b);
    assert!(w.store_block_data);
}

#[test]
fn new_refuses_mismatched_sources() {
    let a = vec!["https://a.example/".to_string()];
    let b = vec!["https://a.example/".to_string(), "https://b.example/".to_string()];
    assert!(matches!(Watcher::new(&a, b, false), Err(WatcherError::SourceMismatch)));
}

#[test]
fn block_url_resolves_path_against_source() {
    let w = Watcher::new(
        &vec!["https://archive.example.com/node1/".to_string()],
        vec!["https://archive.example.com/node1/".to_string()],
        false,
    )
    .unwrap();
    let req = FetchRequest { source: 0, block_index: 1 };
    assert_eq!(
        w.block_url(&req, "00/00/00/00/00/00/00/0000000000000001.pb"),
        Ok("https://archive.example.com/node1/00/00/00/00/00/00/00/0000000000000001.pb".to_string())
    );
}

#[test]
fn block_url_refuses_bad_base() {
    let w = Watcher::new(&vec!["not a url".to_string()], vec!["not a url".to_string()], false)
        .unwrap();
    let req = FetchRequest { source: 0, block_index: 1 };
    assert_eq!(w.block_url(&req, "x.pb"), Err(WatcherError::UrlParse));
}


#[test]
fn block_url_refuses_bad_path() {
    let base = "https://archive.example.com/node1/".to_string();
    let w = Watcher::new(&vec![base.clone()], vec![base], false).unwrap();
    let req = FetchRequest { source: 0, block_index: 1 };
    assert_eq!(w.block_url(&req, "https://[bad"), Err(WatcherError::UrlParse));
}

#[test]
fn failing_source_keeps_cursor_over_pass() {
    let w = watcher_of(2, false);
    let mut cursors: Vec<Option<u64>> = vec![None, Some(3)];
    for _ in 0..3 {
        let reqs = fetch_targets(w.sync_blocks(0, None, &cursors));
        let outs: Vec<FetchOutcome> = reqs
            .iter()
            .map(|r| {
                if r.source == 1 {
                    FetchOutcome::Failed
                } else {
                    FetchOutcome::Fetched { has_signature: false }
                }
            })
            .collect();
        let rec = w.reconcile(&reqs, &outs);
        assert!(rec.progressed);
        apply(&mut cursors, &rec.ops);
    }
    assert_eq!(cursors, vec![Some(2), Some(3)]);
}
