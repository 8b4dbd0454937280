//! A four-team variant of Conway's Game of Life played in rounds on a square
//! board, for a server that lets any number of viewers watch.
//!
//! A round is computed whole before anyone sees it: the teams' starting
//! patterns are planted in the four corners of the first frame, and every
//! later frame follows from the one before it by the rule of `automaton`.
//! Viewers then read the finished frames at their own pace. This crate
//! holds the rules and the data; reading sockets, files and clocks is the
//! caller's part, except for the two places where the rules themselves
//! need the clock and a random name.

use vstd::prelude::*;

pub mod automaton;
pub mod handler;
pub mod history;
pub mod render;
pub mod round;
pub mod schedule;
pub mod score;
pub mod seeding;
pub mod strategy;
pub mod text;
pub mod upload;

verus! {

/// Side of the board that the server plays on.
pub const SIDE: usize = 128;

/// Number of frames in a round.
pub const GAME_STEPS: usize = 2048;

/// Milliseconds between two frames sent to a viewer.
pub const UPDATE_FREQ: u64 = 0;

/// Seconds that a viewer waits past the start of a round before it reads
/// the new round.
pub const NC_WAIT_SECS: u64 = 1;

/// Milliseconds that a connection waits for an upload.
pub const UPLOAD_WAIT_MS: u64 = 1000;

} // verus!
