//! A falling-block puzzle engine: piece geometry and rotation, a bag-fair
//! shape generator, collision checks with a horizontal wall kick, locking,
//! row clearing, scoring and levels, and the decisions of a timer-driven
//! runner. Every state change is reported as a `Notification` value that the
//! caller delivers to its observers.
pub mod board;
pub mod game;
pub mod input;
pub mod notify;
pub mod rules;
pub mod runner;
pub mod tetromino;
