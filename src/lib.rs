//! Comparison of gas-usage reports across several runs: entries are aligned by
//! a display key, averaged, and rendered with deltas against the first run.

pub mod text;
pub mod entry;
pub mod align;
pub mod cells;
pub mod table;
pub mod laws;
