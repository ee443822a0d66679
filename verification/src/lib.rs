//! Verified engine for a cooperative word-hint-and-guess party game.
//!
//! The library models live game sessions (roster, turn order, round state),
//! and implements the session registry, turn rotation, hint collection with
//! deduplication, and guess resolution.  Every state-changing operation
//! returns the ordered list of outbound events that must be delivered to the
//! affected participants; transport plumbing lives outside the library.

pub mod actions;
pub mod dedup;
pub mod engine;
pub mod events;
pub mod game;
pub mod laws;
pub mod numbers;
pub mod strutil;
pub mod words;
