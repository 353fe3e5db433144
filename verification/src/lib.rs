//! A named-queue server core: a registry of FIFO queues, a command parser and
//! a per-connection transaction engine.

pub mod commands;
pub mod connection;
pub mod format;
pub mod laws;
pub mod parse_commands;
pub mod queue_table;
pub mod text;
pub mod transaction;
