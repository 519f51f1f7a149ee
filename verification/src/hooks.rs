//! Hooks of conftests and plugins: the order of their calls, what is read
//! back from them, and what a recorder of hook calls is told of collection.

pub mod firing;
pub mod order;
pub mod readback;
pub mod recorded;
pub mod recorder;
