//! The key-value store behind the commands.

pub mod strings;
