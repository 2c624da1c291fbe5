//! Resolve a local time in a named time zone to an absolute instant, and lay
//! that instant out across a list of time zones, labelled by canonical name
//! or by a friendly alias.

pub mod cli;
pub mod commands;
pub mod config;
pub mod zone;
