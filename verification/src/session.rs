//! The course of a session: startup, collection, running and the exit code.

pub mod abort;
pub mod collected;
pub mod debug;
pub mod finish;
pub mod flow;
pub mod startup;
