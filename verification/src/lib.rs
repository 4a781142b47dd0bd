//! Extraction and bucketing of per-move clock telemetry from chess game
//! records.
//!
//! The library contains the verified core of the analysis tool: the
//! streaming state machine that turns game-record events (game start,
//! headers, comments, game end) into a bucketed dataset of per-move time
//! deltas, together with the helpers it needs (clock-time parsing, the
//! caption builder for the rendered charts).

pub mod args;
pub mod bytes;
pub mod caption;
pub mod clock;
pub mod errors;
pub mod laws;
pub mod reader;
