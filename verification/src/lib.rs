//! Verified core of a CPU energy-performance-preference (EPP) governor.

pub mod text;
pub mod stat;
pub mod policy;
pub mod epp;
pub mod monitor;
