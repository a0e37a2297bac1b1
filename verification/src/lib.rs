//! A recurring numeric-lottery settlement engine.
//!
//! Participants buy fixed-length numeric tickets against a draw.  When the
//! draw expires it is closed, an external oracle delivers a random seed, the
//! seed fixes a winning number, prizes are split into per-match-count buckets
//! and paid out proportionally, and unclaimed tier money rolls forward into
//! the successor draw after a treasury fee is deducted.
//!
//! The engine itself is pure state-transition logic: callers hand it the
//! current block, the message sender and the message payload, and it returns
//! the funds transfers and oracle requests that the host must perform.

pub mod contract;
pub mod digits;
pub mod error;
pub mod helpers;
pub mod msg;
pub mod randomness;
pub mod state;
