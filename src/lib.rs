//! Wilcoxon signed-rank test on paired samples, with exact integer ranks.
//!
//! Ranks and rank sums are kept doubled, so that the averaged rank of a tie
//! group (an integer or a half-integer) is always an exact integer.
pub mod rank_math;

pub mod abs_wrapper;
pub mod ties;
pub mod sorting;
pub mod distribution;
pub mod wilcoxon;
pub mod laws;
