//! A personal time-tracking library: an append-only log of Start and Stop
//! events with optional descriptions, a permissive parser for user-supplied
//! times, a windowed aggregator that sums the elapsed time of Start/Stop
//! pairs, and a binary codec for persisting the log.
//!
//! Every function here carries a contract; the state machine guards, the
//! parser grammar, the calendar arithmetic, the aggregation and the codec
//! round trip are all machine-checked. Reading the clock and the local time
//! zone is delegated to trusted wrappers, and everything computed from such
//! a reading is verified for every value it could take.

pub mod civil;
pub mod clock;
pub mod codec;
pub mod commands;
pub mod event;
pub mod log_ops;
pub mod parse;
pub mod show;
