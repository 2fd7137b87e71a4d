//! Turns the text reports of an instruction-count profiler and of a cache
//! profiler into a ranked summary of the most expensive functions.
//!
//! The path is: raw text, to rows (`parse`), to the selected rows
//! (`select`), to the report text (`report`). Each step is stated over a
//! spec function of the text, so the report is a function of the raw text,
//! the count and the sort order alone.

pub mod text;
pub mod metric;
pub mod parse;
pub mod select;
pub mod format;
pub mod report;
