//! Verified core of a CPU status-line block: cumulative kernel counter
//! parsing, delta-based load percentages, temperature aggregation, and
//! the fixed-width output line.
//!
//! All percentages are carried in hundredths of a percent, so that the
//! two-decimal output format is exact integer arithmetic throughout.

pub mod load;
pub mod parse;
pub mod render;
pub mod temp;
