//! Process orchestration core.
pub mod accounts;
pub mod acl;
pub mod auth;
mod called;
pub mod config;
pub mod config_actor;
pub mod config_registry;
pub mod containment;
pub mod cursor;
pub mod db_cleanup;
pub mod deps;
pub mod digest;
pub mod eager;
pub mod env;
pub mod errors;
pub mod events;
pub mod graph;
pub mod hardening;
pub mod health;
pub mod id_map;
pub mod log_lines;
pub mod logs;
pub mod lua_eval;
pub mod lua_value;
pub mod name_map;
pub mod number;
pub mod order;
pub mod paths;
pub mod permissions;
pub mod script_laws;
pub mod shelf;
pub mod shown;
pub mod state;
pub mod text;
pub mod value;
pub mod yaml;
