//! Sizes of a package's direct dependencies: which resolved version of each
//! declared dependency counts, how the bytes below a package root add up, and
//! how the report is laid out line by line.

pub mod decimal;
pub mod package;
pub mod precedence;
pub mod report;
pub mod selection;
pub mod size_format;
pub mod size_table;
pub mod sums;
pub mod tally;
pub mod version;
