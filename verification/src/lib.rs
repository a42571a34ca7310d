//! A personal time-tracking ledger.
//!
//! Clock-in and clock-out events are read from a command text, recorded in an
//! append-only ledger, and listed again by time and task. The rules of the
//! ledger are stated as contracts and proved by Verus. What is taken from the
//! `chrono` and `comfy_table` crates stands behind a few functions whose
//! contracts are trusted; each says so in its comment.

pub mod command;
pub mod db;
pub mod identity;
pub mod output;
pub mod query;
pub mod text;
pub mod timestamp;
