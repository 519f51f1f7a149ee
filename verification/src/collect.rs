//! Collection: from arguments and files to the list of items to run.

pub mod arguments;
pub mod config;
pub mod configure;
pub mod conftests;
pub mod extra;
pub mod files;
pub mod finalize;
pub mod grouping;
pub mod ignores;
pub mod nesting;
pub mod param_scope;
pub mod phases;
pub mod reorder;
pub mod scan;
