//! Rewindable world state.
//!
//! Any tracked entity's state history can be recorded during forward play and
//! replayed backward to reconstruct an earlier world configuration. The crate
//! provides the state-change capability ([`game_change::GameChange`]), the
//! per-payload-type command log ([`history::GameChangeHistory`]), the level
//! clock and mode controller ([`time_manager::TimeManager`]), and the generic
//! record/rewind replay step ([`replay`]).
//!
//! History is entirely in-memory; the host scheduler, renderer and physics
//! engine are external collaborators that hand plain values in and out.

pub mod animation_change;
pub mod game_change;
pub mod history;
pub mod level_time;
pub mod replay;
pub mod time_manager;
pub mod tracked_id;
