//! The golden-file evaluation harness: fixture loading, directory
//! comparison, per-suite reports and the token-cost regression verdict.
pub mod errors;
pub mod runner;
pub mod baseline;
pub mod scorer;
pub mod golden;
