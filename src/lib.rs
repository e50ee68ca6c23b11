//! Counts the lines of source files by language: a registry maps file
//! extensions to a language and a line counter, and a table folds the line
//! breakdown of each counted file into the totals of its language.

pub mod stats;
pub mod lines;
pub mod classify;
pub mod order;
pub mod registry;
pub mod aggregate;
pub mod laws;
