use tetris::rules::{lines_needed_for_level, score_for_lines, wait_ticks_for_level};
use tetris::runner::{runner_step, tick_interval_micros, RunnerAction, RunnerEvent};

#[test]
fn points_per_clear() {
    assert_eq!(score_for_lines(0, 0), 0);
    assert_eq!(score_for_lines(1, 0), 100);
    assert_eq!(score_for_lines(2, 0), 300);
    assert_eq!(score_for_lines(3, 0), 500);
    assert_eq!(score_for_lines(4, 0), 800);
    assert_eq!(score_for_lines(5, 0), 0);
    assert_eq!(score_for_lines(1, 1), 200);
    assert_eq!(score_for_lines(4, 2), 2400);
    assert_eq!(score_for_lines(4, 65535), 800 * 65536);
}

#[test]
fn level_thresholds() {
    // 10 at level 0, then 10 * level more at each level.
    assert_eq!(lines_needed_for_level(0), 10);
    assert_eq!(lines_needed_for_level(1), 20);
    assert_eq!(lines_needed_for_level(2), 40);
    assert_eq!(lines_needed_for_level(3), 70);
    assert_eq!(lines_needed_for_level(4), 110);
    assert_eq!(lines_needed_for_level(65535), 10 + 5 * 65535 * 65536);
}

#[test]
fn wait_ticks_table() {
    let expected: [(u16, u32); 14] = [
        (0, 48),
        (1, 43),
        (8, 8),
        (9, 6),
        (10, 5),
        (12, 5),
        (13, 4),
        (15, 4),
        (16, 3),
        (18, 3),
        (19, 2),
        (28, 2),
        (29, 1),
        (1000, 1),
    ];
    for (level, ticks) in expected {
        assert_eq!(wait_ticks_for_level(level), ticks, "level {}", level);
    }
}

#[test]
fn runner_start_decisions() {
    assert_eq!(runner_step(true, false, RunnerEvent::Start), (true, RunnerAction::Ignore));
    assert_eq!(runner_step(false, true, RunnerEvent::Start), (false, RunnerAction::Refuse));
    assert_eq!(runner_step(false, false, RunnerEvent::Start), (true, RunnerAction::Launch));
}

#[test]
fn runner_loop_decisions() {
    assert_eq!(runner_step(true, false, RunnerEvent::Ticked(true)), (true, RunnerAction::KeepTicking));
    assert_eq!(runner_step(true, true, RunnerEvent::Ticked(false)), (false, RunnerAction::Halt));
    assert_eq!(runner_step(false, false, RunnerEvent::Ticked(true)), (false, RunnerAction::Halt));
    assert_eq!(runner_step(true, false, RunnerEvent::Reset), (false, RunnerAction::ResetGame));
}

#[test]
fn runner_command_decisions() {
    assert_eq!(runner_step(true, false, RunnerEvent::Command), (true, RunnerAction::Deliver));
    assert_eq!(runner_step(false, false, RunnerEvent::Command), (false, RunnerAction::Refuse));
    assert_eq!(runner_step(true, true, RunnerEvent::Command), (true, RunnerAction::Refuse));
}

#[test]
fn tick_interval_at_sixty_hertz() {
    assert_eq!(tick_interval_micros(), 16666);
}
