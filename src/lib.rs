//! Decisions behind descriptive statistics over samples held as IEEE-754
//! binary64 bit patterns: total ordering and sorting of samples, the rules
//! that pick a quantile's outcome, and the guards of the variance family.

pub mod sample_order;
pub mod quantile;
pub mod moments;
