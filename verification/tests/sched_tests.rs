use netdash::sched::{next_step, remaining_wait, LoopStep, TICK_MS};

#[test]
fn wait_is_the_rest_of_the_tick() {
    assert_eq!(remaining_wait(TICK_MS, 0), 500);
    assert_eq!(remaining_wait(TICK_MS, 200), 300);
    assert_eq!(remaining_wait(TICK_MS, 500), 0);
    assert_eq!(remaining_wait(TICK_MS, 900), 0);
}

#[test]
fn cancellation_wins_over_refresh() {
    assert_eq!(next_step(true, 900, TICK_MS), LoopStep::Quit);
    assert_eq!(next_step(true, 0, TICK_MS), LoopStep::Quit);
}

#[test]
fn elapsed_tick_triggers_refresh() {
    assert_eq!(next_step(false, 500, TICK_MS), LoopStep::Refresh);
    assert_eq!(next_step(false, 10_000, TICK_MS), LoopStep::Refresh);
    assert_eq!(next_step(false, 499, TICK_MS), LoopStep::Render);
    assert_eq!(next_step(false, 0, TICK_MS), LoopStep::Render);
}
