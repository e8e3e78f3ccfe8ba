//! The decisions of the timer-driven runner. The runner owns one game behind
//! a lock and a separately synchronized running flag; it ticks the game from a
//! background loop and lets player commands through while it runs. The lock,
//! the flag, the thread and the sleep belong to the caller; what it should do
//! at each event is decided here.
use vstd::prelude::*;

verus! {

/// Wall-clock ticks per second; the fall speed itself comes from the level.
pub const TICK_RATE_HZ: u64 = 60;

/// Something that happened to the runner.
#[derive(Clone, Copy, Debug, PartialEq, Eq, Structural)]
pub enum RunnerEvent {
    /// A request to start the background loop.
    Start,
    /// The background loop ticked the game; `true` while the game is still on.
    Ticked(bool),
    /// A request to stop and start the game over.
    Reset,
    /// A player command (move, rotate, drop) arrived.
    Command,
}

/// What the runner does in answer.
#[derive(Clone, Copy, Debug, PartialEq, Eq, Structural)]
pub enum RunnerAction {
    /// Nothing: the loop is already running.
    Ignore,
    /// Turn the request or command down.
    Refuse,
    /// Announce the whole game state, then start the background loop.
    Launch,
    /// Sleep one tick interval and tick again.
    KeepTicking,
    /// Leave the background loop.
    Halt,
    /// Reset the game under the lock.
    ResetGame,
    /// Apply the command to the game under the lock.
    Deliver,
}

/// The running flag and the action that follow `event`, given the flag and
/// whether the game is over.
pub open spec fn runner_transition(running: bool, game_over: bool, event: RunnerEvent) -> (bool, RunnerAction) {
    match event {
        RunnerEvent::Start => if running {
            (true, RunnerAction::Ignore)
        } else if game_over {
            (false, RunnerAction::Refuse)
        } else {
            (true, RunnerAction::Launch)
        },
        RunnerEvent::Ticked(on) => if on && running {
            (true, RunnerAction::KeepTicking)
        } else {
            (false, RunnerAction::Halt)
        },
        RunnerEvent::Reset => (false, RunnerAction::ResetGame),
        RunnerEvent::Command => if running && !game_over {
            (true, RunnerAction::Deliver)
        } else {
            (running, RunnerAction::Refuse)
        },
    }
}

pub fn runner_step(running: bool, game_over: bool, event: RunnerEvent) -> (r: (bool, RunnerAction))
    ensures
        r == runner_transition(running, game_over, event),
{
    match event {
        RunnerEvent::Start => {
            if running {
                (true, RunnerAction::Ignore)
            } else if game_over {
                // A finished game must be reset before it can run again.
                (false, RunnerAction::Refuse)
            } else {
                (true, RunnerAction::Launch)
            }
        },
        RunnerEvent::Ticked(on) => {
            if on && running {
                (true, RunnerAction::KeepTicking)
            } else {
                (false, RunnerAction::Halt)
            }
        },
        RunnerEvent::Reset => (false, RunnerAction::ResetGame),
        RunnerEvent::Command => {
            if running && !game_over {
                (true, RunnerAction::Deliver)
            } else {
                (running, RunnerAction::Refuse)
            }
        },
    }
}

/// Microseconds between two ticks of the background loop.
pub fn tick_interval_micros() -> (us: u64)
    ensures
        us == 1_000_000u64 / TICK_RATE_HZ,
{
    1_000_000 / TICK_RATE_HZ
}

} // verus!
