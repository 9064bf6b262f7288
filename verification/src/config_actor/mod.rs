//! The state of one loaded configuration and the commands that change it.
pub mod actor;
pub mod command;
pub mod command_laws;
pub mod context;
pub mod create;
pub mod laws;
pub mod picture;
pub mod process;
