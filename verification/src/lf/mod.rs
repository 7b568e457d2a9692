//! The limit list of a year: the text format, its card entries, name
//! resolution, and the grouped output.

pub mod model;
pub mod parser;
pub mod resolver;
pub mod output;
pub mod cache;
pub mod report;
pub mod run;
