//! The core of a pytest-compatible test runner: selection expressions,
//! fixtures, collection, scheduling and the text of every report.

pub mod banner;
pub mod collect;
pub mod fixture;
pub mod hooks;
pub mod introspect;
pub mod ipc;
pub mod item;
pub mod lists;
pub mod looponfail;
pub mod markexpr;
pub mod nodeid;
pub mod numbers;
pub mod object;
pub mod parametrize;
pub mod pastebin;
pub mod paths;
pub mod plugins;
pub mod report;
pub mod selection;
pub mod session;
pub mod sorting;
pub mod terminal;
pub mod text;
