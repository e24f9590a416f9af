//! Token-usage and rate-limit insights for a status display.
//!
//! The library decides what a status card says about usage: which rate-limit
//! reset comes next, which warnings are due, how many tokens were spent on
//! which day and by which model, and how long the current run of active days
//! is. Reading files, decoding their lines and floating-point arithmetic belong
//! to the caller.
pub mod balance;
pub mod compact;
pub mod daily;
pub mod double;
pub mod limits;
pub mod observability;
pub mod reading;
pub mod rollout;
pub mod snapshot;
pub mod streaks;
pub mod sums;
pub mod text;
pub mod time;
pub mod usage;
pub mod walk;
