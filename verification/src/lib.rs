//! Verified core of the interaction-tree terminal monitor: the address
//! language, the compact tree format, log handling and the session state
//! machine.

pub mod address;
pub mod text;
pub mod tree_format;
pub mod tree_laws;
pub mod types;
pub mod json;
pub mod protocol;
pub mod flutter_log;
pub mod chat;
pub mod tree_json;
pub mod session;
pub mod project;
pub mod tree_view;
pub mod app;
pub mod event;
pub mod help_bar;
pub mod command;
pub mod tool_text;
