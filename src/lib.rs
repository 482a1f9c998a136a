//! Single-pass statistics over IEEE-754 binary64 observations, each held as
//! its bit pattern.

pub mod binary64;
pub mod iter_statistics;
