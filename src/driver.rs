use vstd::prelude::*;

verus! {

/// Most blocks beyond the lowest next block that one sync pass may reach.
pub const MAX_BLOCKS_PER_SYNC_ITERATION: u64 = 10;

/// What the background loop does after reading the ledger's height.
#[derive(Clone, Copy, Debug, PartialEq, Eq, Structural)]
pub enum DriverAction {
    /// Run a sync pass from `start`, bounded by `max_block_height`.
    Sync { start: u64, max_block_height: u64 },
    /// Wait one poll interval, unless a stop was requested meanwhile.
    Wait,
}

/// One iteration of the background loop: the flag to publish, and the
/// action to take.
#[derive(Clone, Copy, Debug, PartialEq, Eq, Structural)]
pub struct DriverStep {
    pub behind: bool,
    pub action: DriverAction,
}

/// The bound of the next sync pass: the last block of the ledger, or the
/// iteration budget past the lowest next block, whichever is lower.
pub open spec fn pass_bound(lowest_next: u64, ledger_num_blocks: u64) -> int {
    let last = ledger_num_blocks - 1;
    let budget = lowest_next + MAX_BLOCKS_PER_SYNC_ITERATION;
    if last < budget {
        last
    } else {
        budget
    }
}

/// Decides one iteration of the background loop. A pending stop ends the
/// loop (`None`) before anything is published. Otherwise the watcher is
/// behind when its lowest next block is below the ledger's block count; it
/// then syncs from that block up to `pass_bound`, and else it waits.
pub fn plan_iteration(stop_requested: bool, lowest_next: u64, ledger_num_blocks: u64) -> (r:
    Option<DriverStep>)
    ensures
        r is None <==> stop_requested,
        r matches Some(step) ==> {
            &&& step.behind == (lowest_next < ledger_num_blocks)
            &&& step.behind ==> step.action == (DriverAction::Sync {
                start: lowest_next,
                max_block_height: pass_bound(lowest_next, ledger_num_blocks) as u64,
            })
            &&& !step.behind ==> step.action is Wait
        },
{
    if stop_requested {
        return None;
    }
    let behind = lowest_next < ledger_num_blocks;
    if behind {
        let last = ledger_num_blocks - 1;
        let budget = lowest_next.saturating_add(MAX_BLOCKS_PER_SYNC_ITERATION);
        let max_block_height = if last < budget {
            last
        } else {
            budget
        };
        Some(DriverStep { behind, action: DriverAction::Sync { start: lowest_next, max_block_height } })
    } else {
        Some(DriverStep { behind, action: DriverAction::Wait })
    }
}

} // verus!
