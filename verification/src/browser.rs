//! Waiting for the browser tab to clear the site's challenge: how the tab's answers to
//! "how many disclosure cards are on the page" decide what happens next.

use vstd::prelude::*;

verus! {

/// How many times the tab is asked before the wait gives up (one second apart).
pub const CLEARANCE_POLLS: u32 = 30;

/// What the wait does after one answer.
#[derive(Debug, Clone, Copy, PartialEq, Eq, Structural)]
pub enum ClearanceStep {
    /// The disclosure list is on the page: the tab is usable.
    Cleared,
    /// Sleep a second, then ask again.
    Retry,
    /// Sleep a second, then give up (saving a screenshot for inspection).
    GiveUp,
}

/// The step after poll `poll` (counting from 0) found `cards` disclosure cards.
pub open spec fn clearance_step_spec(poll: u32, cards: u64) -> ClearanceStep {
    if cards > 0 {
        ClearanceStep::Cleared
    } else if poll + 1 < CLEARANCE_POLLS {
        ClearanceStep::Retry
    } else {
        ClearanceStep::GiveUp
    }
}

/// The step after poll `poll` found `cards` disclosure cards.
pub fn clearance_step(poll: u32, cards: u64) -> (res: ClearanceStep)
    requires
        poll < CLEARANCE_POLLS,
    ensures
        res == clearance_step_spec(poll, cards),
{
    if cards > 0 {
        ClearanceStep::Cleared
    } else if poll + 1 < CLEARANCE_POLLS {
        ClearanceStep::Retry
    } else {
        ClearanceStep::GiveUp
    }
}

/// The wait asks at most `CLEARANCE_POLLS` times: the last poll never retries.
pub proof fn clearance_wait_is_bounded(cards: u64)
    ensures
        clearance_step_spec((CLEARANCE_POLLS - 1) as u32, cards) != ClearanceStep::Retry,
{
}

} // verus!
