//! Model configuration files.
pub mod config;
