//! Parser and statistics engine for Quake III style game-server logs.
//!
//! The library ingests the text of an event log, recognizes match
//! boundaries, player-information changes and kill events, accumulates
//! per-match statistics, and folds the finished matches into one global
//! player ranking.  File access and report rendering live outside the
//! library; every function here is a pure transformation of its inputs.
#![verifier::loop_isolation(false)]

pub mod error;
pub mod events;
pub mod log_model;
pub mod match_data;
pub mod ranking;
pub mod means_of_death;
pub mod text;
