//! Configurations whose values are all computed when they are loaded.
pub mod actor;
pub mod config;
pub mod document;
pub mod expand;
pub mod laws;
pub mod load;
pub mod lua;
pub mod process;
pub mod restart;
pub mod script_laws;
pub mod scripts;
