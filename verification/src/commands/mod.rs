//! The logic of each subcommand.

pub mod completions;
pub mod connect;
pub mod db;
pub mod ls;
pub mod pf;
pub mod update;
