//! Sugo: the verified core of a sugoroku-style AI harness manager.
//!
//! A harness is a board of prompt-bearing cells joined by labelled edges.
//! This crate holds the board model, its structural validation, the edits
//! that produce new immutable board versions, the rules that drive a run
//! across the board, and the small protocols around them.

pub mod domain;
pub mod text;
pub mod validate;
pub mod error;
pub mod content;
pub mod names;
pub mod folder;
pub mod versioning;
pub mod update;
pub mod board_edit;
pub mod run;
pub mod dto;
pub mod timing;
pub mod agent;
pub mod status;
pub mod clock;
pub mod args;
pub mod stall;
pub mod store;
pub mod run_store;
pub mod positions;
pub mod usecase;
