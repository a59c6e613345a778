//! Inventory, naming, tunnel and database-access logic for Scaleway
//! infrastructure, with contracts checked by Verus.

pub mod text;
pub mod config;
pub mod inventory;
pub mod sensitive;
pub mod order;
pub mod database;
pub mod table;
pub mod secrets;
pub mod shell;
pub mod paths;
pub mod ssh;
pub mod cache;
pub mod cli;
pub mod tmux;
pub mod picker;
pub mod scw;
pub mod commands;
