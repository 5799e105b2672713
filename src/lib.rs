//! A dispatcher for long-running GPU proof tasks: the task store and its
//! transitions, deduplicating intake with deterministic identifiers,
//! claim/report dispatch for workers, and the decision logic of the local
//! worker engine and of the stdio plugin broker.
pub mod address;
pub mod base64bytes;
pub mod config;
pub mod coordinator;
pub mod ids;
pub mod model;
pub mod plugin;
pub mod seqs;
pub mod store;
pub mod util;
pub mod worker;
