//! The two halves of a connection, which can be used from different tasks.

pub mod read;
pub mod write;
