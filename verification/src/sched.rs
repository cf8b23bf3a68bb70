//! Refresh scheduling decisions: the fixed tick period, the bounded wait
//! before polling for cancellation, and what one loop iteration does
//! after rendering.

use vstd::prelude::*;

verus! {

/// The fixed data-refresh cadence, in milliseconds.
pub const TICK_MS: u64 = 500;

/// What the control loop does after rendering the current snapshot.
#[derive(Debug, Clone, Copy, PartialEq, Eq, Structural)]
pub enum LoopStep {
    Quit,
    Refresh,
    Render,
}

/// How long to wait for a cancellation event this iteration: the rest of
/// the tick period, clamped to zero once it has fully elapsed.
pub fn remaining_wait(tick_ms: u64, elapsed_ms: u64) -> (r: u64)
    ensures
        r == if elapsed_ms >= tick_ms {
            0int
        } else {
            tick_ms - elapsed_ms
        },
{
    if elapsed_ms >= tick_ms {
        0
    } else {
        tick_ms - elapsed_ms
    }
}

/// The decision for one loop iteration, taken after rendering: observed
/// cancellation ends the loop at once, before any further refresh; an
/// elapsed tick period triggers one refresh; otherwise the loop goes on
/// rendering the snapshot it has.
pub fn next_step(quit_requested: bool, elapsed_ms: u64, tick_ms: u64) -> (r: LoopStep)
    ensures
        r == if quit_requested {
            LoopStep::Quit
        } else if elapsed_ms >= tick_ms {
            LoopStep::Refresh
        } else {
            LoopStep::Render
        },
{
    if quit_requested {
        LoopStep::Quit
    } else if elapsed_ms >= tick_ms {
        LoopStep::Refresh
    } else {
        LoopStep::Render
    }
}

} // verus!
