//! Deterministic, integer-only simulation core for a turn-based artillery game.

pub mod error;
pub mod fixed;
pub mod terrain;
pub mod types;
pub mod projectile_mechanics;
pub mod movement;
pub mod rng;
pub mod resolve;
pub mod match_setup;
pub mod match_session;
pub mod presentation;
pub mod player_events;
pub mod transition_events;
pub mod reconcile;
pub mod session_ledger;
