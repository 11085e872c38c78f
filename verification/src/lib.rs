//! Grammar-aware token counting: walk syntax trees, match node kinds against
//! literal and pattern filters, tally matches per file, aggregate tallies per
//! group, and order the resulting report rows deterministically.

pub mod aggregate;
pub mod cli;
pub mod counter;
pub mod matcher;
pub mod report;
pub mod strutil;
pub mod tally;
pub mod tree;
