//! The logic of `rustforge`, the command line tool that builds, packages and
//! runs mods against a pinned engine checkout, together with the demo mod that
//! ships with it.

pub mod command;
pub mod config;
pub mod dev;
pub mod engine;
pub mod engine_mod;
pub mod host;
pub mod packaging;
pub mod path;
pub mod platform;
pub mod process;
pub mod project;
pub mod shell;
pub mod sync;
pub mod text;
pub mod toml_tree;
pub mod watch;
