//! Configuration.
pub mod condition;
pub mod config_value;
pub mod deps;
pub mod document;
pub mod document_laws;
pub mod duration;
pub mod environment;
pub mod evaluate;
pub mod evaluate_laws;
pub mod expand;
pub mod expr;
pub mod health;
pub mod hooks;
pub mod laws;
pub mod load;
pub mod logs;
pub mod lua;
pub mod read;
pub mod reading;
pub mod resolvable;
pub mod resolve;
pub mod resolve_env;
pub mod resolve_service;
pub mod resources;
pub mod restart;
pub mod service;
pub mod shapes;
pub mod start;
