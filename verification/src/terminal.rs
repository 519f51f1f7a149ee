//! Terminal output: failures, summaries, the collection tree and the header,
//! as lists of lines.

pub mod display;
pub mod durations;
pub mod line;
pub mod results;
pub mod summary;
pub mod tree;
