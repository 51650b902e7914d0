//! Figures about a session.

pub mod counters;
pub mod progress;
pub mod rate;
